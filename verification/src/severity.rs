//! Severity levels, their join, and case-insensitive keyword detection.
use vstd::prelude::*;

verus! {

/// Ordered syslog-style severity levels.
#[derive(Clone, Copy, Debug, PartialEq, Eq, Structural, PartialOrd, Ord)]
pub enum Severity {
    Trace,
    Debug,
    Info,
    Warn,
    Error,
    Fatal,
}

/// Position of a severity in the order `Trace < Debug < Info < Warn < Error < Fatal`.
pub open spec fn rank(s: Severity) -> int {
    match s {
        Severity::Trace => 0,
        Severity::Debug => 1,
        Severity::Info => 2,
        Severity::Warn => 3,
        Severity::Error => 4,
        Severity::Fatal => 5,
    }
}

/// The least severity at least as strong as both operands.
pub open spec fn spec_join(a: Severity, b: Severity) -> Severity {
    if rank(a) >= rank(b) {
        a
    } else {
        b
    }
}

/// The severity decoded from an integer code; unknown codes decode to `Info`.
pub open spec fn severity_of_code(value: i32) -> Severity {
    if value == 0 {
        Severity::Trace
    } else if value == 1 {
        Severity::Debug
    } else if value == 3 {
        Severity::Warn
    } else if value == 4 {
        Severity::Error
    } else if value == 5 {
        Severity::Fatal
    } else {
        Severity::Info
    }
}

/// ASCII lower-casing of one byte.
pub open spec fn lower(b: u8) -> u8 {
    if 65 <= b <= 90 {
        (b + 32) as u8
    } else {
        b
    }
}

/// `needle` occurs in `haystack` at offset `p`, ignoring ASCII case.
pub open spec fn matches_at(haystack: Seq<u8>, needle: Seq<u8>, p: int) -> bool {
    &&& 0 <= p
    &&& p + needle.len() <= haystack.len()
    &&& forall|i: int| 0 <= i < needle.len() ==> lower(#[trigger] haystack[p + i]) == lower(needle[i])
}

/// `needle` occurs somewhere in `haystack`, ignoring ASCII case.
pub open spec fn contains_ci(haystack: Seq<u8>, needle: Seq<u8>) -> bool {
    exists|p: int| matches_at(haystack, needle, p)
}

/// The first offset at which `needle` occurs in `haystack`, ignoring ASCII case.
pub open spec fn is_first_match(haystack: Seq<u8>, needle: Seq<u8>, p: int) -> bool {
    &&& matches_at(haystack, needle, p)
    &&& forall|q: int| 0 <= q < p ==> !matches_at(haystack, needle, q)
}

pub open spec fn trace_word() -> Seq<u8> {
    seq![116u8, 114, 97, 99, 101]
}

pub open spec fn debug_word() -> Seq<u8> {
    seq![100u8, 101, 98, 117, 103]
}

pub open spec fn warn_word() -> Seq<u8> {
    seq![119u8, 97, 114, 110]
}

pub open spec fn error_word() -> Seq<u8> {
    seq![101u8, 114, 114, 111, 114]
}

pub open spec fn failed_word() -> Seq<u8> {
    seq![102u8, 97, 105, 108, 101, 100]
}

pub open spec fn panic_word() -> Seq<u8> {
    seq![112u8, 97, 110, 105, 99]
}

pub open spec fn fatal_word() -> Seq<u8> {
    seq![102u8, 97, 116, 97, 108]
}

/// The severity that conventional log terms in `line` indicate.
///
/// `trace` and `debug` are weaker than the `Info` starting point and so never
/// change the outcome.
pub open spec fn spec_detect(line: Seq<u8>) -> Severity {
    if contains_ci(line, panic_word()) || contains_ci(line, fatal_word()) {
        Severity::Fatal
    } else if contains_ci(line, error_word()) || contains_ci(line, failed_word()) {
        Severity::Error
    } else if contains_ci(line, warn_word()) {
        Severity::Warn
    } else {
        Severity::Info
    }
}

impl Default for Severity {
    fn default() -> (s: Self)
        ensures
            s == Severity::Info,
    {
        Severity::Info
    }
}

impl Severity {
    /// Numeric position in the severity order.
    pub fn code(self) -> (c: i32)
        ensures
            c == rank(self),
    {
        match self {
            Severity::Trace => 0,
            Severity::Debug => 1,
            Severity::Info => 2,
            Severity::Warn => 3,
            Severity::Error => 4,
            Severity::Fatal => 5,
        }
    }

    /// Computes the least severity at least as strong as both operands.
    pub fn join(self, other: Self) -> (r: Self)
        ensures
            r == spec_join(self, other),
    {
        let value = if self.code() >= other.code() {
            self.code()
        } else {
            other.code()
        };
        Self::from_code(value)
    }

    /// Decodes an integer code; values outside the known range become `Info`.
    pub fn from_code(value: i32) -> (s: Self)
        ensures
            s == severity_of_code(value),
    {
        match value {
            0 => Self::Trace,
            1 => Self::Debug,
            3 => Self::Warn,
            4 => Self::Error,
            5 => Self::Fatal,
            _ => Self::Info,
        }
    }

    /// `self` is at least as severe as `other`.
    pub fn at_least(self, other: Self) -> (b: bool)
        ensures
            b == (rank(self) >= rank(other)),
    {
        self.code() >= other.code()
    }

    /// Infers severity from conventional log terms without allocating.
    pub fn detect(line: &[u8]) -> (s: Self)
        ensures
            s == spec_detect(line@),
    {
        let trace: [u8; 5] = [116, 114, 97, 99, 101];
        let debug: [u8; 5] = [100, 101, 98, 117, 103];
        let warn: [u8; 4] = [119, 97, 114, 110];
        let error: [u8; 5] = [101, 114, 114, 111, 114];
        let failed: [u8; 6] = [102, 97, 105, 108, 101, 100];
        let panic: [u8; 5] = [112, 97, 110, 105, 99];
        let fatal: [u8; 5] = [102, 97, 116, 97, 108];
        assert(trace@ == trace_word());
        assert(debug@ == debug_word());
        assert(warn@ == warn_word());
        assert(error@ == error_word());
        assert(failed@ == failed_word());
        assert(panic@ == panic_word());
        assert(fatal@ == fatal_word());
        let mut result = Self::Info;
        if find_ascii_case_insensitive(line, trace.as_slice()).is_some() {
            result = result.join(Self::Trace);
        }
        if find_ascii_case_insensitive(line, debug.as_slice()).is_some() {
            result = result.join(Self::Debug);
        }
        if find_ascii_case_insensitive(line, warn.as_slice()).is_some() {
            result = result.join(Self::Warn);
        }
        if find_ascii_case_insensitive(line, error.as_slice()).is_some() {
            result = result.join(Self::Error);
        }
        if find_ascii_case_insensitive(line, failed.as_slice()).is_some() {
            result = result.join(Self::Error);
        }
        if find_ascii_case_insensitive(line, panic.as_slice()).is_some() {
            result = result.join(Self::Fatal);
        }
        if find_ascii_case_insensitive(line, fatal.as_slice()).is_some() {
            result = result.join(Self::Fatal);
        }
        result
    }

    /// The lower-case name of the level.
    pub fn as_str(self) -> (s: &'static str)
        ensures
            s@ == severity_name(self),
    {
        match self {
            Self::Trace => "trace",
            Self::Debug => "debug",
            Self::Info => "info",
            Self::Warn => "warn",
            Self::Error => "error",
            Self::Fatal => "fatal",
        }
    }
}

/// The lower-case name of a level.
pub open spec fn severity_name(s: Severity) -> Seq<char> {
    match s {
        Severity::Trace => "trace"@,
        Severity::Debug => "debug"@,
        Severity::Info => "info"@,
        Severity::Warn => "warn"@,
        Severity::Error => "error"@,
        Severity::Fatal => "fatal"@,
    }
}

/// ASCII lower-casing of one byte.
pub fn to_lower(b: u8) -> (r: u8)
    ensures
        r == lower(b),
{
    if b >= 65 && b <= 90 {
        b + 32
    } else {
        b
    }
}

/// `needle` matches `haystack` at offset `p`, ignoring ASCII case.
fn matches_here(haystack: &[u8], needle: &[u8], p: usize) -> (b: bool)
    requires
        p + needle@.len() <= haystack@.len(),
    ensures
        b == matches_at(haystack@, needle@, p as int),
{
    let mut i: usize = 0;
    while i < needle.len()
        invariant
            p + needle@.len() <= haystack@.len(),
            haystack@.len() == haystack.len(),
            0 <= i <= needle@.len(),
            forall|k: int| 0 <= k < i ==> lower(#[trigger] haystack@[p + k]) == lower(needle@[k]),
        decreases needle@.len() - i,
    {
        if to_lower(haystack[p + i]) != to_lower(needle[i]) {
            assert(!(lower(haystack@[p + i as int]) == lower(needle@[i as int])));
            return false;
        }
        i = i + 1;
    }
    true
}

/// Finds an ASCII needle case-insensitively and returns its byte offset.
pub fn find_ascii_case_insensitive(haystack: &[u8], needle: &[u8]) -> (r: Option<usize>)
    ensures
        match r {
            Some(p) => is_first_match(haystack@, needle@, p as int),
            None => !contains_ci(haystack@, needle@),
        },
{
    if needle.len() == 0 {
        return Some(0);
    }
    if needle.len() > haystack.len() {
        assert forall|p: int| !matches_at(haystack@, needle@, p) by {}
        return None;
    }
    let last = haystack.len() - needle.len();
    let mut p: usize = 0;
    while p <= last
        invariant
            last + needle@.len() == haystack@.len(),
            haystack@.len() == haystack.len(),
            needle@.len() >= 1,
            0 <= p <= last + 1,
            forall|q: int| 0 <= q < p ==> !matches_at(haystack@, needle@, q),
        decreases last + 1 - p,
    {
        if matches_here(haystack, needle, p) {
            return Some(p);
        }
        p = p + 1;
    }
    assert forall|q: int| !matches_at(haystack@, needle@, q) by {
        if 0 <= q && q < p {
        }
    }
    None
}

/// Joining is commutative, idempotent and associative, and equals the maximum in the severity order.
pub proof fn law_join_is_max(a: Severity, b: Severity, c: Severity)
    ensures
        spec_join(a, b) == spec_join(b, a),
        spec_join(a, a) == a,
        spec_join(spec_join(a, b), c) == spec_join(a, spec_join(b, c)),
        rank(spec_join(a, b)) == if rank(a) >= rank(b) { rank(a) } else { rank(b) },
{
}

/// The keywords decide a line's severity, in any ASCII case: `panic` or
/// `fatal` anywhere makes it `Fatal`; `error` or `failed` makes it at least
/// `Error`; `warn` makes it at least `Warn`; a line with none of these is `Info`.
pub proof fn law_detect_keywords(line: Seq<u8>)
    ensures
        contains_ci(line, seq![112u8, 97, 110, 105, 99]) ==> spec_detect(line) == Severity::Fatal,
        contains_ci(line, seq![102u8, 97, 116, 97, 108]) ==> spec_detect(line) == Severity::Fatal,
        contains_ci(line, seq![101u8, 114, 114, 111, 114]) ==> rank(spec_detect(line)) >= rank(
            Severity::Error,
        ),
        contains_ci(line, seq![102u8, 97, 105, 108, 101, 100]) ==> rank(spec_detect(line)) >= rank(
            Severity::Error,
        ),
        contains_ci(line, seq![119u8, 97, 114, 110]) ==> rank(spec_detect(line)) >= rank(
            Severity::Warn,
        ),
        !contains_ci(line, seq![112u8, 97, 110, 105, 99]) && !contains_ci(
            line,
            seq![102u8, 97, 116, 97, 108],
        ) && !contains_ci(line, seq![101u8, 114, 114, 111, 114]) && !contains_ci(
            line,
            seq![102u8, 97, 105, 108, 101, 100],
        ) && !contains_ci(line, seq![119u8, 97, 114, 110]) ==> spec_detect(line) == Severity::Info,
{
}

} // verus!
