//! The service lifecycle state machine `Start -> Authenticate -> Bind -> Ready`.
use vstd::prelude::*;
use crate::severity::{contains_ci, find_ascii_case_insensitive};

verus! {

/// Valid service lifecycle phases.
#[derive(Clone, Copy, Debug, PartialEq, Eq, Structural)]
pub enum Phase {
    Cold,
    Started,
    Authenticated,
    Bound,
    Ready,
}

/// Lifecycle events recognized in log messages.
#[derive(Clone, Copy, Debug, PartialEq, Eq, Structural)]
pub enum Event {
    Start,
    Authenticate,
    Bind,
    Ready,
    Reset,
}

pub open spec fn phase_code(p: Phase) -> int {
    match p {
        Phase::Cold => 0,
        Phase::Started => 1,
        Phase::Authenticated => 2,
        Phase::Bound => 3,
        Phase::Ready => 4,
    }
}

pub open spec fn event_code(e: Event) -> int {
    match e {
        Event::Start => 0,
        Event::Authenticate => 1,
        Event::Bind => 2,
        Event::Ready => 3,
        Event::Reset => 4,
    }
}

/// The phase with a given code, if any.
pub open spec fn phase_of_code(value: int) -> Option<Phase> {
    if value == 0 {
        Some(Phase::Cold)
    } else if value == 1 {
        Some(Phase::Started)
    } else if value == 2 {
        Some(Phase::Authenticated)
    } else if value == 3 {
        Some(Phase::Bound)
    } else if value == 4 {
        Some(Phase::Ready)
    } else {
        None
    }
}

/// The transition table: `Reset` returns every phase to `Cold`; otherwise the
/// event that names the next step advances one phase, and every other pair is rejected.
pub open spec fn spec_step(p: Phase, e: Event) -> Option<Phase> {
    if e == Event::Reset {
        Some(Phase::Cold)
    } else if event_code(e) == phase_code(p) && p != Phase::Ready {
        phase_of_code(phase_code(p) + 1)
    } else {
        None
    }
}

pub open spec fn authenticate_word() -> Seq<u8> {
    seq![97u8, 117, 116, 104, 101, 110, 116, 105, 99, 97, 116, 101]
}

pub open spec fn authenticated_word() -> Seq<u8> {
    seq![97u8, 117, 116, 104, 101, 110, 116, 105, 99, 97, 116, 101, 100]
}

pub open spec fn ready_word() -> Seq<u8> {
    seq![114u8, 101, 97, 100, 121]
}

pub open spec fn reset_word() -> Seq<u8> {
    seq![114u8, 101, 115, 101, 116]
}

pub open spec fn start_word() -> Seq<u8> {
    seq![115u8, 116, 97, 114, 116]
}

pub open spec fn bind_word() -> Seq<u8> {
    seq![98u8, 105, 110, 100]
}

/// The lifecycle event a line announces: the first of `authenticate`,
/// `authenticated`, `ready`, `reset`, `start`, `bind` that occurs in it,
/// ignoring ASCII case.
pub open spec fn spec_detect_event(line: Seq<u8>) -> Option<Event> {
    if contains_ci(line, authenticate_word()) || contains_ci(line, authenticated_word()) {
        Some(Event::Authenticate)
    } else if contains_ci(line, ready_word()) {
        Some(Event::Ready)
    } else if contains_ci(line, reset_word()) {
        Some(Event::Reset)
    } else if contains_ci(line, start_word()) {
        Some(Event::Start)
    } else if contains_ci(line, bind_word()) {
        Some(Event::Bind)
    } else {
        None
    }
}

impl Phase {
    /// The phase's numeric code.
    pub fn code(self) -> (c: i32)
        ensures
            c == phase_code(self),
    {
        match self {
            Phase::Cold => 0,
            Phase::Started => 1,
            Phase::Authenticated => 2,
            Phase::Bound => 3,
            Phase::Ready => 4,
        }
    }

    /// Decodes a phase code.
    pub fn from_code(value: i32) -> (p: Option<Self>)
        ensures
            p == phase_of_code(value as int),
    {
        match value {
            0 => Some(Self::Cold),
            1 => Some(Self::Started),
            2 => Some(Self::Authenticated),
            3 => Some(Self::Bound),
            4 => Some(Self::Ready),
            _ => None,
        }
    }

    /// Applies one event to the phase; `None` when the transition is impossible.
    pub fn step(self, event: Event) -> (r: Option<Self>)
        ensures
            r == spec_step(self, event),
    {
        if event == Event::Reset {
            Some(Phase::Cold)
        } else if event.code() == self.code() && self != Phase::Ready {
            Self::from_code(self.code() + 1)
        } else {
            None
        }
    }

    /// The variant's name.
    pub fn name(self) -> (s: &'static str)
        ensures
            s@ == phase_name(self),
    {
        match self {
            Phase::Cold => "Cold",
            Phase::Started => "Started",
            Phase::Authenticated => "Authenticated",
            Phase::Bound => "Bound",
            Phase::Ready => "Ready",
        }
    }
}

impl Default for Phase {
    fn default() -> (p: Self)
        ensures
            p == Phase::Cold,
    {
        Phase::Cold
    }
}

pub open spec fn phase_name(p: Phase) -> Seq<char> {
    match p {
        Phase::Cold => "Cold"@,
        Phase::Started => "Started"@,
        Phase::Authenticated => "Authenticated"@,
        Phase::Bound => "Bound"@,
        Phase::Ready => "Ready"@,
    }
}

pub open spec fn event_name(e: Event) -> Seq<char> {
    match e {
        Event::Start => "Start"@,
        Event::Authenticate => "Authenticate"@,
        Event::Bind => "Bind"@,
        Event::Ready => "Ready"@,
        Event::Reset => "Reset"@,
    }
}

impl Event {
    /// The event's numeric code.
    pub fn code(self) -> (c: i32)
        ensures
            c == event_code(self),
    {
        match self {
            Event::Start => 0,
            Event::Authenticate => 1,
            Event::Bind => 2,
            Event::Ready => 3,
            Event::Reset => 4,
        }
    }

    /// The variant's name.
    pub fn name(self) -> (s: &'static str)
        ensures
            s@ == event_name(self),
    {
        match self {
            Event::Start => "Start",
            Event::Authenticate => "Authenticate",
            Event::Bind => "Bind",
            Event::Ready => "Ready",
            Event::Reset => "Reset",
        }
    }

    /// Detects the lifecycle event a log line announces.
    pub fn detect(line: &[u8]) -> (r: Option<Self>)
        ensures
            r == spec_detect_event(line@),
    {
        let authenticate: [u8; 12] = [97, 117, 116, 104, 101, 110, 116, 105, 99, 97, 116, 101];
        let authenticated: [u8; 13] = [97, 117, 116, 104, 101, 110, 116, 105, 99, 97, 116, 101, 100];
        let ready: [u8; 5] = [114, 101, 97, 100, 121];
        let reset: [u8; 5] = [114, 101, 115, 101, 116];
        let start: [u8; 5] = [115, 116, 97, 114, 116];
        let bind: [u8; 4] = [98, 105, 110, 100];
        assert(authenticate@ == authenticate_word());
        assert(authenticated@ == authenticated_word());
        assert(ready@ == ready_word());
        assert(reset@ == reset_word());
        assert(start@ == start_word());
        assert(bind@ == bind_word());
        if find_ascii_case_insensitive(line, authenticate.as_slice()).is_some() {
            Some(Self::Authenticate)
        } else if find_ascii_case_insensitive(line, authenticated.as_slice()).is_some() {
            Some(Self::Authenticate)
        } else if find_ascii_case_insensitive(line, ready.as_slice()).is_some() {
            Some(Self::Ready)
        } else if find_ascii_case_insensitive(line, reset.as_slice()).is_some() {
            Some(Self::Reset)
        } else if find_ascii_case_insensitive(line, start.as_slice()).is_some() {
            Some(Self::Start)
        } else if find_ascii_case_insensitive(line, bind.as_slice()).is_some() {
            Some(Self::Bind)
        } else {
            None
        }
    }
}

/// An event that is impossible from the current phase.
#[derive(Clone, Copy, Debug, PartialEq, Eq, Structural)]
pub struct Violation {
    pub previous: Phase,
    pub event: Event,
}

impl Violation {
    /// Human-readable description: `invalid <Event> event while in <Phase> phase`.
    pub fn message(&self) -> (s: String)
        ensures
            s@ == "invalid "@ + event_name(self.event) + " event while in "@ + phase_name(
                self.previous,
            ) + " phase"@,
    {
        let mut s = String::from_str("invalid ");
        s.append(self.event.name());
        s.append(" event while in ");
        s.append(self.previous.name());
        s.append(" phase");
        s
    }
}

/// Stateful validator for `Start -> Authenticate -> Bind -> Ready` protocols.
#[derive(Debug)]
pub struct ProtocolVerifier {
    phase: Phase,
}

impl Default for ProtocolVerifier {
    fn default() -> (v: Self)
        ensures
            v.spec_phase() == Phase::Cold,
    {
        ProtocolVerifier { phase: Phase::Cold }
    }
}

impl ProtocolVerifier {
    pub closed spec fn spec_phase(&self) -> Phase {
        self.phase
    }

    /// Returns the current phase.
    pub fn phase(&self) -> (p: Phase)
        ensures
            p == self.spec_phase(),
    {
        self.phase
    }

    /// Detects a lifecycle event and validates its transition; a rejected
    /// event leaves the phase unchanged.
    pub fn inspect(&mut self, line: &[u8]) -> (r: Option<Result<Phase, Violation>>)
        ensures
            match spec_detect_event(line@) {
                None => r is None && final(self).spec_phase() == old(self).spec_phase(),
                Some(e) => match spec_step(old(self).spec_phase(), e) {
                    Some(q) => r == Some(Ok::<Phase, Violation>(q)) && final(self).spec_phase() == q,
                    None => r == Some(Err::<Phase, Violation>(
                        Violation { previous: old(self).spec_phase(), event: e },
                    )) && final(self).spec_phase() == old(self).spec_phase(),
                },
            },
    {
        let event = match Event::detect(line) {
            Some(e) => e,
            None => return None,
        };
        let previous = self.phase;
        match previous.step(event) {
            Some(next) => {
                self.phase = next;
                Some(Ok(next))
            },
            None => Some(Err(Violation { previous, event })),
        }
    }
}

/// `Reset` returns every phase to `Cold`.
pub proof fn law_reset_returns_to_cold(p: Phase)
    ensures
        spec_step(p, Event::Reset) == Some(Phase::Cold),
{
}

/// Every accepted non-reset event advances exactly one phase, and `Ready` accepts only `Reset`.
pub proof fn law_step_advances_by_one(p: Phase, e: Event)
    ensures
        e != Event::Reset && spec_step(p, e) is Some ==> phase_code(spec_step(p, e).unwrap())
            == phase_code(p) + 1,
        p == Phase::Ready && e != Event::Reset ==> spec_step(p, e) is None,
{
}

/// The sequence `Start, Authenticate, Bind, Ready` leads from `Cold` to `Ready`.
pub proof fn law_lifecycle_reaches_ready()
    ensures
        spec_step(Phase::Cold, Event::Start) == Some(Phase::Started),
        spec_step(Phase::Started, Event::Authenticate) == Some(Phase::Authenticated),
        spec_step(Phase::Authenticated, Event::Bind) == Some(Phase::Bound),
        spec_step(Phase::Bound, Event::Ready) == Some(Phase::Ready),
{
}

/// Phase and event names are ASCII.
pub proof fn lemma_names_are_ascii(e: Event, p: Phase)
    ensures
        forall|i: int| 0 <= i < event_name(e).len() ==> (event_name(e)[i] as u32) < 128,
        forall|i: int| 0 <= i < phase_name(p).len() ==> (phase_name(p)[i] as u32) < 128,
{
    reveal_strlit("Authenticate");
    reveal_strlit("Authenticated");
    reveal_strlit("Bind");
    reveal_strlit("Bound");
    reveal_strlit("Cold");
    reveal_strlit("Ready");
    reveal_strlit("Reset");
    reveal_strlit("Start");
    reveal_strlit("Started");
}

} // verus!
