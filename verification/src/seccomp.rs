//! Seccomp filters bound to the verified protocol phase of a process.
//!
//! A process proven to be in a phase of the `Start -> Authenticate -> Bind ->
//! Ready` lifecycle gets only the system calls that phase needs.
use vstd::prelude::*;
use std::collections::HashMap;
use crate::protocol::Phase;
use crate::text::{concat_str, decimal, decimal_string};
use std::time::Instant;
use vstd::std_specs::iter::IteratorSpec;

verus! {

broadcast use vstd::std_specs::hash::group_hash_axioms;

/// Seccomp action types.
#[derive(Clone, Copy, Debug, PartialEq, Eq, Structural)]
pub enum SeccompAction {
    /// Allow the system call.
    Allow,
    /// Kill the process if it makes this system call.
    Kill,
    /// Trap the system call (requires signal handler).
    Trap,
    /// Return an error code.
    Errno,
    /// Trace the system call.
    Trace,
    /// Log the system call.
    Log,
}

impl Default for SeccompAction {
    fn default() -> (a: Self)
        ensures
            a == SeccompAction::Kill,
    {
        SeccompAction::Kill
    }
}

/// System call information.
#[derive(Clone, Debug)]
pub struct SyscallInfo {
    /// System call number.
    pub nr: i32,
    /// System call name.
    pub name: String,
    /// Category (e.g., "file", "process", "network").
    pub category: String,
}

/// A seccomp rule maps a system call to an action.
#[derive(Clone, Copy, Debug, PartialEq, Eq, Structural)]
pub struct SeccompRule {
    /// System call number.
    pub syscall_nr: i32,
    /// Action to take.
    pub action: SeccompAction,
}

/// A seccomp filter for a specific process.
#[derive(Clone, Debug)]
pub struct SeccompFilter {
    /// Process ID.
    pub pid: u32,
    /// Protocol phase when the filter was installed.
    pub phase: Phase,
    /// List of rules.
    pub rules: Vec<SeccompRule>,
    /// Default action for unmatched system calls.
    pub default_action: SeccompAction,
}

pub open spec fn allow(nr: i32) -> SeccompRule {
    SeccompRule { syscall_nr: nr, action: SeccompAction::Allow }
}

pub open spec fn kill(nr: i32) -> SeccompRule {
    SeccompRule { syscall_nr: nr, action: SeccompAction::Kill }
}

/// The rules of each phase (x86_64 system call numbers).
///
/// `Cold` allows only `mmap`, `brk` and `access`; `Started` adds file I/O and
/// kills `execve`; `Authenticated` adds `socket`; `Bound` kills `sysctl`,
/// `ioperm` and `iopl`; `Ready` kills those and `execve`, since a process
/// proven `Ready` has no reason to spawn a program.
pub open spec fn phase_rules(phase: Phase) -> Seq<SeccompRule> {
    match phase {
        Phase::Cold => seq![allow(9), allow(12), allow(21)],
        Phase::Started => seq![
            allow(2),
            allow(3),
            allow(4),
            allow(5),
            allow(9),
            allow(12),
            allow(21),
            kill(59),
        ],
        Phase::Authenticated => seq![
            allow(2),
            allow(3),
            allow(4),
            allow(5),
            allow(9),
            allow(12),
            allow(21),
            allow(41),
            kill(59),
        ],
        Phase::Bound => seq![kill(160), kill(174), kill(175)],
        Phase::Ready => seq![kill(160), kill(174), kill(175), kill(59)],
    }
}

/// Unmatched system calls are allowed only in `Ready`.
pub open spec fn phase_default(phase: Phase) -> SeccompAction {
    if phase == Phase::Ready {
        SeccompAction::Allow
    } else {
        SeccompAction::Kill
    }
}

/// The action of the first rule for `nr`, or the default when no rule names it.
pub open spec fn action_for(rules: Seq<SeccompRule>, default: SeccompAction, nr: i32) -> SeccompAction
    decreases rules.len(),
{
    if rules.len() == 0 {
        default
    } else if rules[0].syscall_nr == nr {
        rules[0].action
    } else {
        action_for(rules.drop_first(), default, nr)
    }
}

/// The action that the filter of a phase takes for `nr`.
pub open spec fn phase_action(phase: Phase, nr: i32) -> SeccompAction {
    action_for(phase_rules(phase), phase_default(phase), nr)
}

/// `f` is the filter generated for `pid` in `phase`.
pub open spec fn is_filter_for(f: SeccompFilter, pid: u32, phase: Phase) -> bool {
    &&& f.pid == pid
    &&& f.phase == phase
    &&& f.rules@ == phase_rules(phase)
    &&& f.default_action == phase_default(phase)
}

impl SeccompFilter {
    /// The action this filter takes for a system call.
    pub open spec fn spec_action(&self, nr: i32) -> SeccompAction {
        action_for(self.rules@, self.default_action, nr)
    }

    /// Creates a new seccomp filter for a process in a given phase.
    pub fn new(pid: u32, phase: Phase) -> (f: Self)
        ensures
            is_filter_for(f, pid, phase),
    {
        let rules = Self::generate_rules_for_phase(phase);
        SeccompFilter {
            pid,
            phase,
            rules,
            default_action: if phase == Phase::Ready {
                SeccompAction::Allow
            } else {
                SeccompAction::Kill
            },
        }
    }

    /// Generates seccomp rules for a given protocol phase.
    pub fn generate_rules_for_phase(phase: Phase) -> (r: Vec<SeccompRule>)
        ensures
            r@ == phase_rules(phase),
    {
        let allow = SeccompAction::Allow;
        let kill = SeccompAction::Kill;
        let v = match phase {
            Phase::Cold => vec![
                SeccompRule { syscall_nr: 9, action: allow },  // mmap
                SeccompRule { syscall_nr: 12, action: allow },  // brk
                SeccompRule { syscall_nr: 21, action: allow },  // access
            ],
            Phase::Started => vec![
                SeccompRule { syscall_nr: 2, action: allow },  // open
                SeccompRule { syscall_nr: 3, action: allow },  // close
                SeccompRule { syscall_nr: 4, action: allow },  // read
                SeccompRule { syscall_nr: 5, action: allow },  // write
                SeccompRule { syscall_nr: 9, action: allow },  // mmap
                SeccompRule { syscall_nr: 12, action: allow },  // brk
                SeccompRule { syscall_nr: 21, action: allow },  // access
                SeccompRule { syscall_nr: 59, action: kill },  // execve
            ],
            Phase::Authenticated => vec![
                SeccompRule { syscall_nr: 2, action: allow },  // open
                SeccompRule { syscall_nr: 3, action: allow },  // close
                SeccompRule { syscall_nr: 4, action: allow },  // read
                SeccompRule { syscall_nr: 5, action: allow },  // write
                SeccompRule { syscall_nr: 9, action: allow },  // mmap
                SeccompRule { syscall_nr: 12, action: allow },  // brk
                SeccompRule { syscall_nr: 21, action: allow },  // access
                SeccompRule { syscall_nr: 41, action: allow },  // socket
                SeccompRule { syscall_nr: 59, action: kill },  // execve
            ],
            Phase::Bound => vec![
                SeccompRule { syscall_nr: 160, action: kill },  // sysctl
                SeccompRule { syscall_nr: 174, action: kill },  // ioperm
                SeccompRule { syscall_nr: 175, action: kill },  // iopl
            ],
            Phase::Ready => vec![
                SeccompRule { syscall_nr: 160, action: kill },  // sysctl
                SeccompRule { syscall_nr: 174, action: kill },  // ioperm
                SeccompRule { syscall_nr: 175, action: kill },  // iopl
                SeccompRule { syscall_nr: 59, action: kill },  // execve
            ],
        };
        assert(v@ == phase_rules(phase));
        v
    }

    /// Checks if a system call is allowed.
    pub fn is_allowed(&self, syscall_nr: i32) -> (b: bool)
        ensures
            b == (self.spec_action(syscall_nr) == SeccompAction::Allow),
    {
        self.get_action(syscall_nr) == SeccompAction::Allow
    }

    /// Gets the action for a system call.
    pub fn get_action(&self, syscall_nr: i32) -> (a: SeccompAction)
        ensures
            a == self.spec_action(syscall_nr),
    {
        let mut i: usize = 0;
        assert(self.rules@.subrange(0, self.rules@.len() as int) == self.rules@);
        while i < self.rules.len()
            invariant
                0 <= i <= self.rules@.len(),
                action_for(self.rules@, self.default_action, syscall_nr) == action_for(
                    self.rules@.subrange(i as int, self.rules@.len() as int),
                    self.default_action,
                    syscall_nr,
                ),
            decreases self.rules@.len() - i,
        {
            let ghost rest = self.rules@.subrange(i as int, self.rules@.len() as int);
            assert(rest.drop_first() == self.rules@.subrange(i + 1, self.rules@.len() as int));
            if self.rules[i].syscall_nr == syscall_nr {
                return self.rules[i].action;
            }
            i = i + 1;
        }
        self.default_action
    }
}

/// Seccomp manager for dynamic filter injection.
#[derive(Debug)]
pub struct SeccompManager {
    /// Map of PID to active seccomp filter.
    filters: HashMap<u32, SeccompFilter>,
    /// Whether libseccomp is available.
    libseccomp_available: bool,
    /// Track protocol phases for each PID.
    protocol_phases: HashMap<u32, Phase>,
}

/// The phase recorded for `pid`, `Cold` when none is.
pub open spec fn recorded_phase(phases: Map<u32, Phase>, pid: u32) -> Phase {
    if phases.contains_key(pid) {
        phases[pid]
    } else {
        Phase::Cold
    }
}

/// `new` is `old` with the filter of `pid` replaced by the one generated for `phase`.
pub open spec fn filter_replaced(
    old: Map<u32, SeccompFilter>,
    new: Map<u32, SeccompFilter>,
    pid: u32,
    phase: Phase,
) -> bool {
    &&& new.dom() == old.dom().insert(pid)
    &&& is_filter_for(new[pid], pid, phase)
    &&& forall|k: u32| k != pid && old.contains_key(k) ==> new[k] == old[k]
}

impl Default for SeccompManager {
    fn default() -> (m: Self)
        ensures
            m.filters() == Map::<u32, SeccompFilter>::empty(),
            m.phases() == Map::<u32, Phase>::empty(),
            !m.libseccomp(),
    {
        SeccompManager {
            filters: HashMap::new(),
            libseccomp_available: false,
            protocol_phases: HashMap::new(),
        }
    }
}

impl SeccompManager {
    /// The installed filters by PID.
    pub closed spec fn filters(&self) -> Map<u32, SeccompFilter> {
        self.filters@
    }

    /// The recorded protocol phases by PID.
    pub closed spec fn phases(&self) -> Map<u32, Phase> {
        self.protocol_phases@
    }

    pub closed spec fn libseccomp(&self) -> bool {
        self.libseccomp_available
    }

    /// Creates a new seccomp manager.
    pub fn new() -> (m: Self)
        ensures
            m.filters() == Map::<u32, SeccompFilter>::empty(),
            m.phases() == Map::<u32, Phase>::empty(),
            !m.libseccomp(),
    {
        Self::default()
    }

    /// Checks if libseccomp is available.
    pub fn is_libseccomp_available(&self) -> (b: bool)
        ensures
            b == self.libseccomp(),
    {
        self.libseccomp_available
    }

    /// Updates the protocol phase for a process; an installed filter is regenerated for the new phase.
    pub fn update_protocol_phase(&mut self, pid: u32, phase: Phase)
        ensures
            final(self).phases() == old(self).phases().insert(pid, phase),
            old(self).filters().contains_key(pid) ==> filter_replaced(
                old(self).filters(),
                final(self).filters(),
                pid,
                phase,
            ),
            !old(self).filters().contains_key(pid) ==> final(self).filters() == old(
                self,
            ).filters(),
            final(self).libseccomp() == old(self).libseccomp(),
    {
        self.protocol_phases.insert(pid, phase);
        if self.filters.contains_key(&pid) {
            self.filters.insert(pid, SeccompFilter::new(pid, phase));
        }
    }

    /// Installs a filter for a process based on its recorded protocol phase (`Cold` when none is recorded).
    pub fn install_filter(&mut self, pid: u32) -> (r: Result<(), String>)
        ensures
            r is Ok,
            filter_replaced(
                old(self).filters(),
                final(self).filters(),
                pid,
                recorded_phase(old(self).phases(), pid),
            ),
            final(self).phases() == old(self).phases(),
            final(self).libseccomp() == old(self).libseccomp(),
    {
        let phase = match self.protocol_phases.get(&pid) {
            Some(p) => *p,
            None => Phase::Cold,
        };
        self.filters.insert(pid, SeccompFilter::new(pid, phase));
        Ok(())
    }

    /// Removes a seccomp filter for a process; reports whether one was installed.
    pub fn remove_filter(&mut self, pid: u32) -> (b: bool)
        ensures
            b == old(self).filters().contains_key(pid),
            final(self).filters() == old(self).filters().remove(pid),
            final(self).phases() == old(self).phases(),
            final(self).libseccomp() == old(self).libseccomp(),
    {
        self.filters.remove(&pid).is_some()
    }

    /// Checks if a system call is allowed for a process; without a filter everything is allowed.
    pub fn is_allowed(&self, pid: u32, syscall_nr: i32) -> (b: bool)
        ensures
            b == (!self.filters().contains_key(pid) || self.filters()[pid].spec_action(syscall_nr)
                == SeccompAction::Allow),
    {
        match self.filters.get(&pid) {
            Some(filter) => filter.is_allowed(syscall_nr),
            None => true,
        }
    }

    /// Gets the seccomp filter for a process.
    pub fn get_filter(&self, pid: u32) -> (r: Option<&SeccompFilter>)
        ensures
            match r {
                Some(f) => self.filters().contains_key(pid) && *f == self.filters()[pid],
                None => !self.filters().contains_key(pid),
            },
    {
        self.filters.get(&pid)
    }

    /// Gets all active filters, each once.
    pub fn get_all_filters(&self) -> (r: Vec<&SeccompFilter>)
        ensures
            r@.len() == self.filters().dom().len(),
            r@.unref().to_set() == self.filters().values(),
    {
        let mut r: Vec<&SeccompFilter> = Vec::new();
        for f in it: self.filters.values()
            invariant
                r@ == it.seq().take(it.index() as int),
                it.seq() == vstd::std_specs::hash::spec_values_iter(&self.filters).remaining(),
        {
            r.push(f);
        }
        proof {
            vstd::std_specs::hash::axiom_spec_values_iter(&self.filters);
            assert(r@ =~= vstd::std_specs::hash::spec_values_iter(&self.filters).remaining());
        }
        r
    }

    /// Removes all filters.
    pub fn clear_filters(&mut self)
        ensures
            final(self).filters() == Map::<u32, SeccompFilter>::empty(),
            final(self).phases() == old(self).phases(),
            final(self).libseccomp() == old(self).libseccomp(),
    {
        self.filters.clear();
    }
}

/// State-bound seccomp enforcer: connects the protocol verifier to the seccomp manager.
#[derive(Debug)]
pub struct StateBoundSeccomp {
    /// Seccomp manager.
    manager: SeccompManager,
    /// Protocol phase tracker.
    phases: HashMap<u32, Phase>,
}

impl StateBoundSeccomp {
    /// The phases this enforcer tracks by PID.
    pub closed spec fn phase_map(&self) -> Map<u32, Phase> {
        self.phases@
    }

    /// The manager's installed filters by PID.
    pub closed spec fn filters(&self) -> Map<u32, SeccompFilter> {
        self.manager.filters()
    }

    /// The manager's recorded phases by PID.
    pub closed spec fn manager_phases(&self) -> Map<u32, Phase> {
        self.manager.phases()
    }

    /// Creates a new state-bound seccomp enforcer.
    pub fn new() -> (s: Self)
        ensures
            s.phase_map() == Map::<u32, Phase>::empty(),
            s.filters() == Map::<u32, SeccompFilter>::empty(),
            s.manager_phases() == Map::<u32, Phase>::empty(),
    {
        StateBoundSeccomp { manager: SeccompManager::new(), phases: HashMap::new() }
    }

    /// Updates the protocol phase for a process.
    pub fn update_phase(&mut self, pid: u32, phase: Phase)
        ensures
            final(self).phase_map() == old(self).phase_map().insert(pid, phase),
            final(self).manager_phases() == old(self).manager_phases().insert(pid, phase),
            old(self).filters().contains_key(pid) ==> filter_replaced(
                old(self).filters(),
                final(self).filters(),
                pid,
                phase,
            ),
            !old(self).filters().contains_key(pid) ==> final(self).filters() == old(
                self,
            ).filters(),
    {
        self.phases.insert(pid, phase);
        self.manager.update_protocol_phase(pid, phase);
    }

    /// Gets the current protocol phase for a process.
    pub fn get_phase(&self, pid: u32) -> (r: Option<Phase>)
        ensures
            r == (if self.phase_map().contains_key(pid) {
                Some(self.phase_map()[pid])
            } else {
                None
            }),
    {
        match self.phases.get(&pid) {
            Some(p) => Some(*p),
            None => None,
        }
    }

    /// Installs a seccomp filter for a process from the manager's recorded phase.
    pub fn install_filter(&mut self, pid: u32) -> (r: Result<(), String>)
        ensures
            r is Ok,
            filter_replaced(
                old(self).filters(),
                final(self).filters(),
                pid,
                recorded_phase(old(self).manager_phases(), pid),
            ),
            final(self).manager_phases() == old(self).manager_phases(),
            final(self).phase_map() == old(self).phase_map(),
    {
        self.manager.install_filter(pid)
    }

    /// Checks if a system call is allowed for a process.
    pub fn is_allowed(&self, pid: u32, syscall_nr: i32) -> (b: bool)
        ensures
            b == (!self.filters().contains_key(pid) || self.filters()[pid].spec_action(syscall_nr)
                == SeccompAction::Allow),
    {
        self.manager.is_allowed(pid, syscall_nr)
    }

    /// Applies seccomp rules for a process in `phase`. On a protocol violation
    /// only the manager learns the phase; otherwise the tracker learns it too.
    /// Either way a filter for `phase` is installed, and the result is `true`.
    pub fn apply_protocol_bounds(&mut self, pid: u32, phase: Phase, violation: bool) -> (b: bool)
        ensures
            b,
            filter_replaced(old(self).filters(), final(self).filters(), pid, phase),
            final(self).manager_phases() == old(self).manager_phases().insert(pid, phase),
            violation ==> final(self).phase_map() == old(self).phase_map(),
            !violation ==> final(self).phase_map() == old(self).phase_map().insert(pid, phase),
    {
        let ghost before = self.filters();
        if violation {
            self.manager.update_protocol_phase(pid, phase);
        } else {
            self.update_phase(pid, phase);
        }
        let ghost mid = self.filters();
        let _ = self.manager.install_filter(pid);
        proof {
            lemma_filter_replaced_again(before, mid, self.filters(), pid, phase);
        }
        true
    }
}

proof fn lemma_filter_replaced_again(
    a: Map<u32, SeccompFilter>,
    b: Map<u32, SeccompFilter>,
    c: Map<u32, SeccompFilter>,
    pid: u32,
    phase: Phase,
)
    requires
        filter_replaced(a, b, pid, phase) || b == a,
        filter_replaced(b, c, pid, phase),
    ensures
        filter_replaced(a, c, pid, phase),
{
    assert(c.dom() =~= a.dom().insert(pid));
}

/// The system calls that should be blocked in most states.
pub open spec fn dangerous_syscalls() -> Seq<i32> {
    seq![59i32, 160, 174, 175, 101, 134, 137]
}

/// Known dangerous system calls.
#[derive(Clone, Debug)]
pub struct DangerousSyscalls;

impl DangerousSyscalls {
    /// System calls that should be blocked in most states: `execve`, `sysctl`,
    /// `ioperm`, `iopl`, `ptrace`, `tkill` and `rt_sigreturn`.
    pub const DANGEROUS: [i32; 7] = [59, 160, 174, 175, 101, 134, 137];

    /// Checks if a system call is dangerous.
    pub fn is_dangerous(syscall_nr: i32) -> (b: bool)
        ensures
            b == dangerous_syscalls().contains(syscall_nr),
    {
        let list: [i32; 7] = [59, 160, 174, 175, 101, 134, 137];
        assert(list@ == dangerous_syscalls());
        let mut i: usize = 0;
        while i < 7
            invariant
                0 <= i <= 7,
                list@ == dangerous_syscalls(),
                forall|k: int| 0 <= k < i ==> list@[k] != syscall_nr,
            decreases 7 - i,
        {
            if list[i] == syscall_nr {
                assert(dangerous_syscalls()[i as int] == syscall_nr);
                return true;
            }
            i = i + 1;
        }
        false
    }
}

/// The name and category of the system calls the database knows (x86_64 numbering).
pub open spec fn syscall_entry(nr: i32) -> Option<(Seq<char>, Seq<char>)> {
    if nr == 0 {
        Some(("read"@, "file"@))
    } else if nr == 1 {
        Some(("write"@, "file"@))
    } else if nr == 2 {
        Some(("open"@, "file"@))
    } else if nr == 3 {
        Some(("close"@, "file"@))
    } else if nr == 4 {
        Some(("stat"@, "file"@))
    } else if nr == 5 {
        Some(("fstat"@, "file"@))
    } else if nr == 9 {
        Some(("mmap"@, "memory"@))
    } else if nr == 12 {
        Some(("brk"@, "memory"@))
    } else if nr == 41 {
        Some(("socket"@, "network"@))
    } else if nr == 42 {
        Some(("connect"@, "network"@))
    } else if nr == 43 {
        Some(("accept"@, "network"@))
    } else if nr == 59 {
        Some(("execve"@, "process"@))
    } else if nr == 160 {
        Some(("sysctl"@, "system"@))
    } else {
        None
    }
}

/// `info` describes system call `nr` as the database's table does.
pub open spec fn describes(info: SyscallInfo, nr: i32) -> bool {
    &&& syscall_entry(nr) is Some
    &&& info.nr == nr
    &&& info.name@ == syscall_entry(nr).unwrap().0
    &&& info.category@ == syscall_entry(nr).unwrap().1
}

/// System call database.
#[derive(Debug)]
pub struct SyscallDatabase {
    /// Map from system call number to info.
    syscalls: HashMap<i32, SyscallInfo>,
}

impl SyscallDatabase {
    /// The database's table.
    pub closed spec fn table(&self) -> Map<i32, SyscallInfo> {
        self.syscalls@
    }

    /// The table holds exactly the known system calls, each described correctly.
    pub open spec fn is_complete(&self) -> bool {
        forall|nr: i32|
            (#[trigger] self.table().contains_key(nr) <==> syscall_entry(nr) is Some) && (
            self.table().contains_key(nr) ==> describes(self.table()[nr], nr))
    }

    /// Creates a new system call database.
    pub fn new() -> (db: Self)
        ensures
            db.is_complete(),
    {
        let mut syscalls: HashMap<i32, SyscallInfo> = HashMap::new();
        syscalls.insert(0, syscall_info(0, "read", "file"));
        syscalls.insert(1, syscall_info(1, "write", "file"));
        syscalls.insert(2, syscall_info(2, "open", "file"));
        syscalls.insert(3, syscall_info(3, "close", "file"));
        syscalls.insert(4, syscall_info(4, "stat", "file"));
        syscalls.insert(5, syscall_info(5, "fstat", "file"));
        syscalls.insert(9, syscall_info(9, "mmap", "memory"));
        syscalls.insert(12, syscall_info(12, "brk", "memory"));
        syscalls.insert(41, syscall_info(41, "socket", "network"));
        syscalls.insert(42, syscall_info(42, "connect", "network"));
        syscalls.insert(43, syscall_info(43, "accept", "network"));
        syscalls.insert(59, syscall_info(59, "execve", "process"));
        syscalls.insert(160, syscall_info(160, "sysctl", "system"));
        let db = SyscallDatabase { syscalls };
        assert forall|nr: i32|
            (#[trigger] db.table().contains_key(nr) <==> syscall_entry(nr) is Some) && (
            db.table().contains_key(nr) ==> describes(db.table()[nr], nr)) by {}
        db
    }

    /// Gets information about a system call.
    pub fn get(&self, syscall_nr: i32) -> (r: Option<&SyscallInfo>)
        ensures
            match r {
                Some(info) => self.table().contains_key(syscall_nr) && *info == self.table()[syscall_nr],
                None => !self.table().contains_key(syscall_nr),
            },
    {
        self.syscalls.get(&syscall_nr)
    }

    /// Gets the name of a system call.
    pub fn get_name(&self, syscall_nr: i32) -> (r: Option<String>)
        ensures
            match r {
                Some(name) => self.table().contains_key(syscall_nr) && name@ == self.table()[syscall_nr].name@,
                None => !self.table().contains_key(syscall_nr),
            },
    {
        match self.get(syscall_nr) {
            Some(info) => Some(info.name.clone()),
            None => None,
        }
    }
}

impl Default for SyscallDatabase {
    fn default() -> (db: Self)
        ensures
            db.is_complete(),
    {
        Self::new()
    }
}

/// Builds one table entry.
fn syscall_info(nr: i32, name: &str, category: &str) -> (info: SyscallInfo)
    ensures
        info.nr == nr,
        info.name@ == name@,
        info.category@ == category@,
{
    SyscallInfo { nr, name: String::from_str(name), category: String::from_str(category) }
}

/// `sysctl`, `ioperm` and `iopl` are never allowed, whatever the phase.
pub proof fn law_privileged_calls_never_allowed(phase: Phase)
    ensures
        phase_action(phase, 160) != SeccompAction::Allow,
        phase_action(phase, 174) != SeccompAction::Allow,
        phase_action(phase, 175) != SeccompAction::Allow,
{
    reveal_with_fuel(action_for, 10);
}

/// `execve` is never allowed, whatever the phase: in `Ready` in particular a
/// filter kills it.
pub proof fn law_execve_never_allowed(phase: Phase)
    ensures
        phase_action(phase, 59) != SeccompAction::Allow,
        phase == Phase::Ready ==> phase_action(phase, 59) == SeccompAction::Kill,
{
    reveal_with_fuel(action_for, 10);
}

/// A `Cold` process may call only `mmap`, `brk` and `access`.
pub proof fn law_cold_is_minimal(nr: i32)
    ensures
        (phase_action(Phase::Cold, nr) == SeccompAction::Allow) <==> (nr == 9 || nr == 12 || nr
            == 21),
{
    reveal_with_fuel(action_for, 4);
}

/// Once a filter is installed for a phase, a system call is allowed exactly
/// when that phase's rules allow it.
pub proof fn law_installed_filter_follows_phase(
    old: Map<u32, SeccompFilter>,
    new: Map<u32, SeccompFilter>,
    pid: u32,
    phase: Phase,
    nr: i32,
)
    requires
        filter_replaced(old, new, pid, phase),
    ensures
        new.contains_key(pid),
        new[pid].spec_action(nr) == phase_action(phase, nr),
{
}

/// The name of an action, as `{:?}` writes it.
pub open spec fn action_name(a: SeccompAction) -> Seq<char> {
    match a {
        SeccompAction::Allow => "Allow"@,
        SeccompAction::Kill => "Kill"@,
        SeccompAction::Trap => "Trap"@,
        SeccompAction::Errno => "Errno"@,
        SeccompAction::Trace => "Trace"@,
        SeccompAction::Log => "Log"@,
    }
}

impl SeccompAction {
    /// The name of the action, as `{:?}` writes it.
    pub fn name(self) -> (s: &'static str)
        ensures
            s@ == action_name(self),
    {
        match self {
            SeccompAction::Allow => "Allow",
            SeccompAction::Kill => "Kill",
            SeccompAction::Trap => "Trap",
            SeccompAction::Errno => "Errno",
            SeccompAction::Trace => "Trace",
            SeccompAction::Log => "Log",
        }
    }
}

/// A system call a filter acted on.
#[derive(Debug)]
pub struct SeccompEvent {
    /// Process ID.
    pub pid: u32,
    /// System call number.
    pub syscall_nr: i32,
    /// System call name.
    pub syscall_name: String,
    /// Action taken.
    pub action: SeccompAction,
    /// Timestamp.
    pub timestamp: Instant,
}

/// The decimal text of a signed number.
pub open spec fn signed_decimal(n: i32) -> Seq<char> {
    if n < 0 {
        "-"@ + decimal((0 - n) as nat)
    } else {
        decimal(n as nat)
    }
}

/// The decimal text of a signed number.
fn signed_decimal_string(n: i32) -> (r: String)
    ensures
        r@ == signed_decimal(n),
{
    if n < 0 {
        let magnitude: u64 = (0 - (n as i64)) as u64;
        concat_str("-", decimal_string(magnitude).as_str())
    } else {
        decimal_string(n as u64)
    }
}

/// The log line of an event.
pub open spec fn event_line(e: SeccompEvent) -> Seq<char> {
    "ccze-seccomp: pid="@ + decimal(e.pid as nat) + " syscall="@ + signed_decimal(e.syscall_nr)
        + " ("@ + e.syscall_name@ + ") action="@ + action_name(e.action)
}

/// Seccomp event logger.
#[derive(Debug)]
pub struct SeccompLogger;

impl SeccompLogger {
    /// The line an event is logged as.
    pub fn message(event: &SeccompEvent) -> (s: String)
        ensures
            s@ == event_line(*event),
    {
        let mut s = concat_str("ccze-seccomp: pid=", decimal_string(event.pid as u64).as_str());
        s = concat_str(s.as_str(), " syscall=");
        s = concat_str(s.as_str(), signed_decimal_string(event.syscall_nr).as_str());
        s = concat_str(s.as_str(), " (");
        s = concat_str(s.as_str(), event.syscall_name.as_str());
        s = concat_str(s.as_str(), ") action=");
        s = concat_str(s.as_str(), event.action.name());
        s
    }
}

} // verus!
