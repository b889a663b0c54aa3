//! Linux Security Module (LSM) policy: hook types, rules with conditions over a
//! string context, rule-file parsing, decisions, and capability bit checks.
//!
//! Reading the rules file, writing the audit log and querying the kernel are
//! left to the caller, which hands their outcomes to the functions here.
use vstd::prelude::*;
use crate::parser::same_text;
use crate::dkms::{
    DkmsConfig, DkmsManager, ModuleDefinition, CommandOutput, CommandLine, ModuleStage, ModuleStep,
    ModuleTask, StepView, start_spec, step_spec,
};
use crate::text::{
    ascii_lower, lower_equals, find_text, find_text_exec, find_char, find_char_exec, lemma_find_text, lemma_find_char, trim,
    trim_str, words, split_words, views, lines, lines_of, substring, chars_of, contains_text, starts_with, ends_with, contains_exec, starts_with_exec,
    ends_with_exec, parse_u64, parse_u32, parse_u64_exec, concat_str, decimal, decimal_string,
};

verus! {

/// LSM hook types that can be intercepted.
#[derive(Debug, Clone, Copy, PartialEq, Eq, Hash, Structural)]
pub enum LsmHookType {
    FileOpen,
    FileRead,
    FileWrite,
    FileExecute,
    FilePermission,
    ProcessExec,
    ProcessFork,
    ProcessExit,
    ProcessSetuid,
    ProcessSetgid,
    SocketCreate,
    SocketBind,
    SocketConnect,
    SocketListen,
    SocketAccept,
    Mmap,
    Brk,
    SyscallEntry,
    SyscallExit,
    Capable,
    Capget,
    Capset,
    MsgQueue,
    Semaphore,
    SharedMemory,
    DeviceAccess,
}

/// The name of a hook, as it is displayed and logged.
pub open spec fn hook_name(h: LsmHookType) -> Seq<char> {
    match h {
        LsmHookType::FileOpen => "file_open"@,
        LsmHookType::FileRead => "file_read"@,
        LsmHookType::FileWrite => "file_write"@,
        LsmHookType::FileExecute => "file_execute"@,
        LsmHookType::FilePermission => "file_permission"@,
        LsmHookType::ProcessExec => "process_exec"@,
        LsmHookType::ProcessFork => "process_fork"@,
        LsmHookType::ProcessExit => "process_exit"@,
        LsmHookType::ProcessSetuid => "process_setuid"@,
        LsmHookType::ProcessSetgid => "process_setgid"@,
        LsmHookType::SocketCreate => "socket_create"@,
        LsmHookType::SocketBind => "socket_bind"@,
        LsmHookType::SocketConnect => "socket_connect"@,
        LsmHookType::SocketListen => "socket_listen"@,
        LsmHookType::SocketAccept => "socket_accept"@,
        LsmHookType::Mmap => "mmap"@,
        LsmHookType::Brk => "brk"@,
        LsmHookType::SyscallEntry => "syscall_entry"@,
        LsmHookType::SyscallExit => "syscall_exit"@,
        LsmHookType::Capable => "capable"@,
        LsmHookType::Capget => "capget"@,
        LsmHookType::Capset => "capset"@,
        LsmHookType::MsgQueue => "msg_queue"@,
        LsmHookType::Semaphore => "semaphore"@,
        LsmHookType::SharedMemory => "shared_memory"@,
        LsmHookType::DeviceAccess => "device_access"@,
    }
}

impl LsmHookType {
    /// The name of the hook, as it is displayed and logged.
    pub fn as_str(self) -> (s: &'static str)
        ensures
            s@ == hook_name(self),
    {
        match self {
            LsmHookType::FileOpen => "file_open",
            LsmHookType::FileRead => "file_read",
            LsmHookType::FileWrite => "file_write",
            LsmHookType::FileExecute => "file_execute",
            LsmHookType::FilePermission => "file_permission",
            LsmHookType::ProcessExec => "process_exec",
            LsmHookType::ProcessFork => "process_fork",
            LsmHookType::ProcessExit => "process_exit",
            LsmHookType::ProcessSetuid => "process_setuid",
            LsmHookType::ProcessSetgid => "process_setgid",
            LsmHookType::SocketCreate => "socket_create",
            LsmHookType::SocketBind => "socket_bind",
            LsmHookType::SocketConnect => "socket_connect",
            LsmHookType::SocketListen => "socket_listen",
            LsmHookType::SocketAccept => "socket_accept",
            LsmHookType::Mmap => "mmap",
            LsmHookType::Brk => "brk",
            LsmHookType::SyscallEntry => "syscall_entry",
            LsmHookType::SyscallExit => "syscall_exit",
            LsmHookType::Capable => "capable",
            LsmHookType::Capget => "capget",
            LsmHookType::Capset => "capset",
            LsmHookType::MsgQueue => "msg_queue",
            LsmHookType::Semaphore => "semaphore",
            LsmHookType::SharedMemory => "shared_memory",
            LsmHookType::DeviceAccess => "device_access",
        }
    }
}

/// LSM hook action types.
#[derive(Debug, Clone, Copy, PartialEq, Eq, Structural)]
pub enum LsmAction {
    /// Allow the operation
    Allow,
    /// Deny the operation
    Deny,
    /// Audit the operation (allow but log)
    Audit,
    /// Silent deny (no logging)
    SilentDeny,
}

/// The label of an action in the audit log.
pub open spec fn action_label(a: LsmAction) -> Seq<char> {
    match a {
        LsmAction::Allow => "ALLOW"@,
        LsmAction::Deny => "DENY"@,
        LsmAction::Audit => "AUDIT"@,
        LsmAction::SilentDeny => "SILENT_DENY"@,
    }
}

/// The string context of a hook call: at most one value per key.
#[derive(Debug)]
pub struct Context {
    entries: Vec<(String, String)>,
}

/// No two entries share a key.
pub open spec fn keys_unique(s: Seq<(String, String)>) -> bool {
    forall|i: int, j: int| 0 <= i < j < s.len() ==> s[i].0@ != s[j].0@
}

/// The index of the entry with key `k`.
pub open spec fn key_index(s: Seq<(String, String)>, k: Seq<char>) -> Option<int> {
    if exists|i: int| 0 <= i < s.len() && s[i].0@ == k {
        Some(choose|i: int| 0 <= i < s.len() && s[i].0@ == k)
    } else {
        None
    }
}

/// The map that a list of entries with unique keys stands for.
pub open spec fn entries_map(s: Seq<(String, String)>) -> Map<Seq<char>, Seq<char>> {
    Map::new(|k: Seq<char>| key_index(s, k) is Some, |k: Seq<char>| s[key_index(s, k)->0].1@)
}

/// With unique keys, an entry is found at its own index.
pub proof fn lemma_key_index(s: Seq<(String, String)>, i: int)
    requires
        keys_unique(s),
        0 <= i < s.len(),
    ensures
        key_index(s, s[i].0@) == Some(i),
{
    let k = s[i].0@;
    assert(0 <= i < s.len() && s[i].0@ == k);
    let j = choose|j: int| 0 <= j < s.len() && s[j].0@ == k;
    if j < i {
        assert(s[j].0@ != s[i].0@);
    } else if i < j {
        assert(s[i].0@ != s[j].0@);
    }
}

impl View for Context {
    type V = Map<Seq<char>, Seq<char>>;

    closed spec fn view(&self) -> Map<Seq<char>, Seq<char>> {
        entries_map(self.entries@)
    }
}

impl Context {
    /// The entries have unique keys.
    pub closed spec fn wf(&self) -> bool {
        keys_unique(self.entries@)
    }

    /// An empty context.
    pub fn new() -> (c: Self)
        ensures
            c.wf(),
            c@ == Map::<Seq<char>, Seq<char>>::empty(),
    {
        let c = Context { entries: Vec::new() };
        assert(c@ =~= Map::<Seq<char>, Seq<char>>::empty());
        c
    }

    /// Sets `key` to `value`, replacing an earlier value.
    pub fn insert(&mut self, key: &str, value: &str)
        requires
            old(self).wf(),
        ensures
            final(self).wf(),
            final(self)@ == old(self)@.insert(key@, value@),
    {
        let ghost before = self.entries@;
        let mut i: usize = 0;
        while i < self.entries.len()
            invariant
                i <= self.entries@.len(),
                self.entries@ == before,
                before == old(self).entries@,
                keys_unique(before),
                forall|j: int| 0 <= j < i ==> self.entries@[j].0@ != key@,
            decreases self.entries@.len() - i,
        {
            if crate::parser::same_text(self.entries[i].0.as_str(), key) {
                let k = self.entries[i].0.clone();
                self.entries.set(i, (k, String::from_str(value)));
                proof {
                    let s = self.entries@;
                    assert forall|j: int| 0 <= j < s.len() implies (#[trigger] s[j]).0@ == before[j].0@ by {}
                    assert(keys_unique(s));
                    lemma_key_index(s, i as int);
                    assert forall|n: Seq<char>| n != key@ implies key_index(s, n) == key_index(before, n)
                        by {
                        if key_index(before, n) is Some {
                            let k = key_index(before, n)->0;
                            assert(s[k].0@ == n);
                            lemma_key_index(s, k);
                            lemma_key_index(before, k);
                        }
                        if key_index(s, n) is Some {
                            let k = key_index(s, n)->0;
                            assert(before[k].0@ == n);
                            lemma_key_index(before, k);
                        }
                    }
                    assert(entries_map(s) =~= entries_map(before).insert(key@, value@));
                }
                return;
            }
            i = i + 1;
        }
        self.entries.push((String::from_str(key), String::from_str(value)));
        proof {
            let s = self.entries@;
            let last = before.len() as int;
            assert(keys_unique(s)) by {
                assert forall|a: int, b: int| 0 <= a < b < s.len() implies s[a].0@ != s[b].0@ by {
                    if b < last {
                        assert(s[a] == before[a] && s[b] == before[b]);
                    }
                }
            }
            lemma_key_index(s, last);
            assert forall|n: Seq<char>| n != key@ implies key_index(s, n) == key_index(before, n) by {
                if key_index(before, n) is Some {
                    let k = key_index(before, n)->0;
                    assert(s[k].0@ == n);
                    lemma_key_index(s, k);
                    lemma_key_index(before, k);
                }
                if key_index(s, n) is Some {
                    let k = key_index(s, n)->0;
                    assert(k != last);
                    assert(before[k].0@ == n);
                    lemma_key_index(before, k);
                }
            }
            assert(entries_map(s) =~= entries_map(before).insert(key@, value@));
        }
    }

    /// The value of `key`, if it is set.
    pub fn get(&self, key: &str) -> (r: Option<&String>)
        requires
            self.wf(),
        ensures
            match r {
                Some(v) => self@.contains_key(key@) && v@ == self@[key@],
                None => !self@.contains_key(key@),
            },
    {
        let mut i: usize = 0;
        while i < self.entries.len()
            invariant
                i <= self.entries@.len(),
                keys_unique(self.entries@),
                forall|j: int| 0 <= j < i ==> self.entries@[j].0@ != key@,
            decreases self.entries@.len() - i,
        {
            if crate::parser::same_text(self.entries[i].0.as_str(), key) {
                proof {
                    lemma_key_index(self.entries@, i as int);
                }
                return Some(&self.entries[i].1);
            }
            i = i + 1;
        }
        None
    }

    /// The number of keys set.
    pub fn len(&self) -> (n: usize)
        requires
            self.wf(),
        ensures
            n == self@.dom().len(),
    {
        proof {
            lemma_dom_len(self.entries@);
        }
        self.entries.len()
    }

    /// The entries, one per key, in insertion order of the keys.
    pub fn entries(&self) -> (r: &Vec<(String, String)>)
        requires
            self.wf(),
        ensures
            keys_unique(r@),
            entries_map(r@) == self@,
    {
        &self.entries
    }

    /// A copy of this context.
    pub fn duplicate(&self) -> (c: Self)
        requires
            self.wf(),
        ensures
            c.wf(),
            c@ == self@,
    {
        let mut entries: Vec<(String, String)> = Vec::new();
        let mut i: usize = 0;
        while i < self.entries.len()
            invariant
                i <= self.entries@.len(),
                entries@ == self.entries@.subrange(0, i as int),
            decreases self.entries@.len() - i,
        {
            let (k, v) = &self.entries[i];
            entries.push((k.clone(), v.clone()));
            assert(entries@ =~= self.entries@.subrange(0, i + 1));
            i = i + 1;
        }
        assert(self.entries@.subrange(0, self.entries@.len() as int) =~= self.entries@);
        Context { entries }
    }
}

/// With unique keys, the map has one key per entry.
proof fn lemma_dom_len(s: Seq<(String, String)>)
    requires
        keys_unique(s),
    ensures
        entries_map(s).dom().finite(),
        entries_map(s).dom().len() == s.len(),
    decreases s.len(),
{
    let ks = Set::new(|k: Seq<char>| key_index(s, k) is Some);
    assert(entries_map(s).dom() =~= ks);
    if s.len() == 0 {
        assert(ks =~= Set::<Seq<char>>::empty());
    } else {
        let t = s.drop_last();
        assert(keys_unique(t));
        lemma_dom_len(t);
        let kt = Set::new(|k: Seq<char>| key_index(t, k) is Some);
        assert(entries_map(t).dom() =~= kt);
        let last = s.last().0@;
        assert(!kt.contains(last)) by {
            if key_index(t, last) is Some {
                let k = key_index(t, last)->0;
                assert(s[k].0@ == last);
                assert(s[k].0@ != s[s.len() - 1].0@);
            }
        }
        assert(ks =~= kt.insert(last)) by {
            assert forall|n: Seq<char>| ks.contains(n) <==> kt.insert(last).contains(n) by {
                if key_index(s, n) is Some && n != last {
                    let k = key_index(s, n)->0;
                    assert(k < s.len() - 1);
                    assert(t[k].0@ == n);
                }
                if kt.contains(n) {
                    let k = key_index(t, n)->0;
                    assert(s[k].0@ == n);
                }
                if n == last {
                    assert(s[s.len() - 1].0@ == n);
                }
            }
        }
    }
}

/// The text reads `true`, `1` or `yes`, in any case. Comparing ASCII-lowered
/// text gives what comparing `str::to_lowercase` gives here: no character
/// outside ASCII lowercases into these words.
pub open spec fn bool_word(s: Seq<char>) -> bool {
    ascii_lower(s) == "true"@ || ascii_lower(s) == "1"@ || ascii_lower(s) == "yes"@
}

/// The value of `key` read as a `u64`, when it is set and reads as one.
pub open spec fn ctx_u64(ctx: Map<Seq<char>, Seq<char>>, key: Seq<char>) -> Option<u64> {
    if ctx.contains_key(key) {
        parse_u64(ctx[key])
    } else {
        None
    }
}

/// What a condition says of a context.
#[verifier::ext_equal]
pub enum CondView {
    StringEquals { key: Seq<char>, value: Seq<char> },
    StringContains { key: Seq<char>, value: Seq<char> },
    StringPrefix { key: Seq<char>, value: Seq<char> },
    StringSuffix { key: Seq<char>, value: Seq<char> },
    NumericEquals { key: Seq<char>, value: u64 },
    NumericGreaterThan { key: Seq<char>, value: u64 },
    NumericLessThan { key: Seq<char>, value: u64 },
    NumericInRange { key: Seq<char>, min: u64, max: u64 },
    Boolean { key: Seq<char>, value: bool },
    Regex { key: Seq<char>, pattern: Seq<char> },
    IpInCidr { key: Seq<char>, cidr: Seq<char> },
}

/// Whether a condition holds in a context. A key that is not set fails every
/// condition but `Boolean` with `value: false`.
pub open spec fn cond_holds(c: CondView, ctx: Map<Seq<char>, Seq<char>>) -> bool {
    match c {
        CondView::StringEquals { key, value } => ctx.contains_key(key) && ctx[key] == value,
        CondView::StringContains { key, value } => ctx.contains_key(key) && contains_text(
            ctx[key],
            value,
        ),
        CondView::StringPrefix { key, value } => ctx.contains_key(key) && starts_with(ctx[key], value),
        CondView::StringSuffix { key, value } => ctx.contains_key(key) && ends_with(ctx[key], value),
        CondView::NumericEquals { key, value } => ctx_u64(ctx, key) == Some(value),
        CondView::NumericGreaterThan { key, value } => match ctx_u64(ctx, key) {
            Some(v) => v > value,
            None => false,
        },
        CondView::NumericLessThan { key, value } => match ctx_u64(ctx, key) {
            Some(v) => v < value,
            None => false,
        },
        CondView::NumericInRange { key, min, max } => match ctx_u64(ctx, key) {
            Some(v) => min <= v && v <= max,
            None => false,
        },
        CondView::Boolean { key, value } => (ctx.contains_key(key) && bool_word(ctx[key])) == value,
        CondView::Regex { key, pattern } => ctx.contains_key(key) && contains_text(ctx[key], pattern),
        CondView::IpInCidr { key, cidr } => ctx.contains_key(key) && (cidr == "0.0.0.0/0"@ || cidr
            == "::/0"@ || ctx[key] == cidr),
    }
}

/// LSM condition types.
#[derive(Debug, Clone)]
pub enum LsmCondition {
    /// String equality
    StringEquals { key: String, value: String },
    /// String contains
    StringContains { key: String, value: String },
    /// String prefix
    StringPrefix { key: String, value: String },
    /// String suffix
    StringSuffix { key: String, value: String },
    /// Numeric equality
    NumericEquals { key: String, value: u64 },
    /// Numeric greater than
    NumericGreaterThan { key: String, value: u64 },
    /// Numeric less than
    NumericLessThan { key: String, value: u64 },
    /// Numeric in range
    NumericInRange { key: String, min: u64, max: u64 },
    /// Boolean condition
    Boolean { key: String, value: bool },
    /// Substring match on the pattern text
    Regex { key: String, pattern: String },
    /// IP address in CIDR range
    IpInCidr { key: String, cidr: String },
}

impl View for LsmCondition {
    type V = CondView;

    open spec fn view(&self) -> CondView {
        match self {
            LsmCondition::StringEquals { key, value } => CondView::StringEquals {
                key: key@,
                value: value@,
            },
            LsmCondition::StringContains { key, value } => CondView::StringContains {
                key: key@,
                value: value@,
            },
            LsmCondition::StringPrefix { key, value } => CondView::StringPrefix {
                key: key@,
                value: value@,
            },
            LsmCondition::StringSuffix { key, value } => CondView::StringSuffix {
                key: key@,
                value: value@,
            },
            LsmCondition::NumericEquals { key, value } => CondView::NumericEquals {
                key: key@,
                value: *value,
            },
            LsmCondition::NumericGreaterThan { key, value } => CondView::NumericGreaterThan {
                key: key@,
                value: *value,
            },
            LsmCondition::NumericLessThan { key, value } => CondView::NumericLessThan {
                key: key@,
                value: *value,
            },
            LsmCondition::NumericInRange { key, min, max } => CondView::NumericInRange {
                key: key@,
                min: *min,
                max: *max,
            },
            LsmCondition::Boolean { key, value } => CondView::Boolean { key: key@, value: *value },
            LsmCondition::Regex { key, pattern } => CondView::Regex {
                key: key@,
                pattern: pattern@,
            },
            LsmCondition::IpInCidr { key, cidr } => CondView::IpInCidr { key: key@, cidr: cidr@ },
        }
    }
}

/// The value of `key` read as a `u64`.
fn context_u64(context: &Context, key: &String) -> (r: Option<u64>)
    requires
        context.wf(),
    ensures
        r == ctx_u64(context@, key@),
{
    match context.get(key.as_str()) {
        Some(v) => {
            let cs = chars_of(v.as_str());
            assert(cs@.subrange(0, cs@.len() as int) =~= cs@);
            parse_u64_exec(cs.as_slice(), 0, cs.len())
        },
        None => None,
    }
}

impl LsmCondition {
    /// Whether the condition holds in the context.
    pub fn evaluate(&self, context: &Context) -> (b: bool)
        requires
            context.wf(),
        ensures
            b == cond_holds(self@, context@),
    {
        match self {
            LsmCondition::StringEquals { key, value } => match context.get(key.as_str()) {
                Some(v) => crate::parser::same_text(v.as_str(), value.as_str()),
                None => false,
            },
            LsmCondition::StringContains { key, value } => match context.get(key.as_str()) {
                Some(v) => contains_exec(
                    chars_of(v.as_str()).as_slice(),
                    chars_of(value.as_str()).as_slice(),
                ),
                None => false,
            },
            LsmCondition::StringPrefix { key, value } => match context.get(key.as_str()) {
                Some(v) => starts_with_exec(
                    chars_of(v.as_str()).as_slice(),
                    chars_of(value.as_str()).as_slice(),
                ),
                None => false,
            },
            LsmCondition::StringSuffix { key, value } => match context.get(key.as_str()) {
                Some(v) => ends_with_exec(
                    chars_of(v.as_str()).as_slice(),
                    chars_of(value.as_str()).as_slice(),
                ),
                None => false,
            },
            LsmCondition::NumericEquals { key, value } => match context_u64(context, key) {
                Some(v) => v == *value,
                None => false,
            },
            LsmCondition::NumericGreaterThan { key, value } => match context_u64(context, key) {
                Some(v) => v > *value,
                None => false,
            },
            LsmCondition::NumericLessThan { key, value } => match context_u64(context, key) {
                Some(v) => v < *value,
                None => false,
            },
            LsmCondition::NumericInRange { key, min, max } => match context_u64(context, key) {
                Some(v) => v >= *min && v <= *max,
                None => false,
            },
            LsmCondition::Boolean { key, value } => {
                let word = match context.get(key.as_str()) {
                    Some(v) => {
                        let cs = chars_of(v.as_str());
                        lower_equals(cs.as_slice(), "true") || lower_equals(cs.as_slice(), "1")
                            || lower_equals(cs.as_slice(), "yes")
                    },
                    None => false,
                };
                word == *value
            },
            LsmCondition::Regex { key, pattern } => match context.get(key.as_str()) {
                Some(v) => contains_exec(
                    chars_of(v.as_str()).as_slice(),
                    chars_of(pattern.as_str()).as_slice(),
                ),
                None => false,
            },
            LsmCondition::IpInCidr { key, cidr } => match context.get(key.as_str()) {
                Some(v) => self.ip_in_cidr_simple(v.as_str(), cidr.as_str()),
                None => false,
            },
        }
    }

    /// Simple address check: the catch-all ranges match every address, any
    /// other range only the address written the same way.
    fn ip_in_cidr_simple(&self, ip: &str, cidr: &str) -> (b: bool)
        ensures
            b == (cidr@ == "0.0.0.0/0"@ || cidr@ == "::/0"@ || ip@ == cidr@),
    {
        if crate::parser::same_text(cidr, "0.0.0.0/0") || crate::parser::same_text(cidr, "::/0") {
            return true;
        }
        crate::parser::same_text(ip, cidr)
    }

    /// A copy of this condition.
    pub fn duplicate(&self) -> (c: Self)
        ensures
            c@ == self@,
    {
        match self {
            LsmCondition::StringEquals { key, value } => LsmCondition::StringEquals {
                key: key.clone(),
                value: value.clone(),
            },
            LsmCondition::StringContains { key, value } => LsmCondition::StringContains {
                key: key.clone(),
                value: value.clone(),
            },
            LsmCondition::StringPrefix { key, value } => LsmCondition::StringPrefix {
                key: key.clone(),
                value: value.clone(),
            },
            LsmCondition::StringSuffix { key, value } => LsmCondition::StringSuffix {
                key: key.clone(),
                value: value.clone(),
            },
            LsmCondition::NumericEquals { key, value } => LsmCondition::NumericEquals {
                key: key.clone(),
                value: *value,
            },
            LsmCondition::NumericGreaterThan { key, value } => LsmCondition::NumericGreaterThan {
                key: key.clone(),
                value: *value,
            },
            LsmCondition::NumericLessThan { key, value } => LsmCondition::NumericLessThan {
                key: key.clone(),
                value: *value,
            },
            LsmCondition::NumericInRange { key, min, max } => LsmCondition::NumericInRange {
                key: key.clone(),
                min: *min,
                max: *max,
            },
            LsmCondition::Boolean { key, value } => LsmCondition::Boolean {
                key: key.clone(),
                value: *value,
            },
            LsmCondition::Regex { key, pattern } => LsmCondition::Regex {
                key: key.clone(),
                pattern: pattern.clone(),
            },
            LsmCondition::IpInCidr { key, cidr } => LsmCondition::IpInCidr {
                key: key.clone(),
                cidr: cidr.clone(),
            },
        }
    }
}

/// What a rule says: its name, the hook it applies to, its conditions, and
/// the action it takes with its priority.
pub struct RuleView {
    pub name: Seq<char>,
    pub hook_type: LsmHookType,
    pub conditions: Seq<CondView>,
    pub action: LsmAction,
    pub priority: u32,
    pub description: Seq<char>,
}

/// A rule matches a context when every one of its conditions holds there.
pub open spec fn rule_matches(r: RuleView, ctx: Map<Seq<char>, Seq<char>>) -> bool {
    forall|i: int| 0 <= i < r.conditions.len() ==> cond_holds(#[trigger] r.conditions[i], ctx)
}

/// The views of a list of conditions.
pub open spec fn cond_views(s: Seq<LsmCondition>) -> Seq<CondView> {
    s.map_values(|c: LsmCondition| c@)
}

/// LSM rule for matching and deciding.
#[derive(Debug, Clone)]
pub struct LsmRule {
    pub name: String,
    pub hook_type: LsmHookType,
    pub conditions: Vec<LsmCondition>,
    pub action: LsmAction,
    pub priority: u32,
    pub description: String,
}

impl View for LsmRule {
    type V = RuleView;

    open spec fn view(&self) -> RuleView {
        RuleView {
            name: self.name@,
            hook_type: self.hook_type,
            conditions: cond_views(self.conditions@),
            action: self.action,
            priority: self.priority,
            description: self.description@,
        }
    }
}

impl LsmRule {
    /// A rule without conditions, at priority 100, with no description.
    pub fn new(name: &str, hook_type: LsmHookType, action: LsmAction) -> (r: Self)
        ensures
            r@ == (RuleView {
                name: name@,
                hook_type,
                conditions: Seq::empty(),
                action,
                priority: 100,
                description: Seq::empty(),
            }),
    {
        let r = LsmRule {
            name: String::from_str(name),
            hook_type,
            conditions: Vec::new(),
            action,
            priority: 100,
            description: String::new(),
        };
        assert(cond_views(r.conditions@) =~= Seq::<CondView>::empty());
        r
    }

    /// The rule with one more condition, after the others.
    pub fn with_condition(self, condition: LsmCondition) -> (r: Self)
        ensures
            r@ == (RuleView { conditions: self@.conditions.push(condition@), ..self@ }),
    {
        let mut rule = self;
        let ghost before = rule.conditions@;
        let ghost c = condition@;
        rule.conditions.push(condition);
        assert(cond_views(rule.conditions@) =~= cond_views(before).push(c));
        rule
    }

    /// The rule with another priority.
    pub fn with_priority(self, priority: u32) -> (r: Self)
        ensures
            r@ == (RuleView { priority, ..self@ }),
    {
        let mut rule = self;
        rule.priority = priority;
        rule
    }

    /// The rule with another description.
    pub fn with_description(self, description: &str) -> (r: Self)
        ensures
            r@ == (RuleView { description: description@, ..self@ }),
    {
        let mut rule = self;
        rule.description = String::from_str(description);
        rule
    }

    /// Whether every condition of the rule holds in the context.
    pub fn matches(&self, context: &Context) -> (b: bool)
        requires
            context.wf(),
        ensures
            b == rule_matches(self@, context@),
    {
        let mut i: usize = 0;
        while i < self.conditions.len()
            invariant
                i <= self.conditions@.len(),
                context.wf(),
                forall|j: int| 0 <= j < i ==> cond_holds(cond_views(self.conditions@)[j], context@),
            decreases self.conditions@.len() - i,
        {
            if !self.conditions[i].evaluate(context) {
                assert(cond_views(self.conditions@)[i as int] == self.conditions@[i as int]@);
                assert(!cond_holds(self@.conditions[i as int], context@));
                return false;
            }
            i = i + 1;
        }
        true
    }

    /// A copy of this rule.
    pub fn duplicate(&self) -> (r: Self)
        ensures
            r@ == self@,
    {
        let mut conditions: Vec<LsmCondition> = Vec::new();
        let mut i: usize = 0;
        while i < self.conditions.len()
            invariant
                i <= self.conditions@.len(),
                conditions@.len() == i,
                forall|j: int| 0 <= j < i ==> (#[trigger] conditions@[j])@ == self.conditions@[j]@,
            decreases self.conditions@.len() - i,
        {
            conditions.push(self.conditions[i].duplicate());
            i = i + 1;
        }
        let r = LsmRule {
            name: self.name.clone(),
            hook_type: self.hook_type,
            conditions,
            action: self.action,
            priority: self.priority,
            description: self.description.clone(),
        };
        assert(cond_views(r.conditions@) =~= cond_views(self.conditions@));
        r
    }
}

/// What a decision records.
pub struct DecisionView {
    pub hook_type: LsmHookType,
    pub action: LsmAction,
    pub reason: Seq<char>,
    pub pid: u32,
    pub uid: u32,
    pub gid: u32,
    pub context: Map<Seq<char>, Seq<char>>,
}

/// LSM hook decision.
#[derive(Debug)]
pub struct LsmDecision {
    pub hook_type: LsmHookType,
    pub action: LsmAction,
    pub reason: String,
    pub pid: u32,
    pub uid: u32,
    pub gid: u32,
    pub context: Context,
}

impl View for LsmDecision {
    type V = DecisionView;

    open spec fn view(&self) -> DecisionView {
        DecisionView {
            hook_type: self.hook_type,
            action: self.action,
            reason: self.reason@,
            pid: self.pid,
            uid: self.uid,
            gid: self.gid,
            context: self.context@,
        }
    }
}

impl LsmDecision {
    /// A decision with ids 0 and an empty context.
    pub fn new(hook_type: LsmHookType, action: LsmAction, reason: &str) -> (d: Self)
        ensures
            d.context.wf(),
            d@ == (DecisionView {
                hook_type,
                action,
                reason: reason@,
                pid: 0,
                uid: 0,
                gid: 0,
                context: Map::empty(),
            }),
    {
        LsmDecision {
            hook_type,
            action,
            reason: String::from_str(reason),
            pid: 0,
            uid: 0,
            gid: 0,
            context: Context::new(),
        }
    }

    /// The decision with `key` set to `value` in its context.
    pub fn with_context(self, key: &str, value: &str) -> (d: Self)
        requires
            self.context.wf(),
        ensures
            d.context.wf(),
            d@ == (DecisionView { context: self@.context.insert(key@, value@), ..self@ }),
    {
        let mut decision = self;
        decision.context.insert(key, value);
        decision
    }

    /// A copy of this decision.
    pub fn duplicate(&self) -> (d: Self)
        requires
            self.context.wf(),
        ensures
            d.context.wf(),
            d@ == self@,
    {
        LsmDecision {
            hook_type: self.hook_type,
            action: self.action,
            reason: self.reason.clone(),
            pid: self.pid,
            uid: self.uid,
            gid: self.gid,
            context: self.context.duplicate(),
        }
    }
}

/// LSM configuration.
#[derive(Debug, Clone)]
pub struct LsmConfig {
    pub enabled: bool,
    pub module_name: String,
    pub lsm_name: String,
    pub hook_priority: u32,
    pub auto_load: bool,
    /// Path of the rules file.
    pub rules_file: String,
    /// Path of the audit log.
    pub log_file: String,
    pub audit_log: bool,
}

impl Default for LsmConfig {
    fn default() -> (c: Self)
        ensures
            c.enabled,
            c.module_name@ == "ccze_lsm"@,
            c.lsm_name@ == "ccze"@,
            c.hook_priority == 100,
            !c.auto_load,
            c.rules_file@ == "/etc/ccze/lsm_rules.conf"@,
            c.log_file@ == "/var/log/ccze_lsm.log"@,
            c.audit_log,
    {
        LsmConfig {
            enabled: true,
            module_name: String::from_str("ccze_lsm"),
            lsm_name: String::from_str("ccze"),
            hook_priority: 100,
            auto_load: false,
            rules_file: String::from_str("/etc/ccze/lsm_rules.conf"),
            log_file: String::from_str("/var/log/ccze_lsm.log"),
            audit_log: true,
        }
    }
}

impl LsmConfig {
    /// A copy of this configuration.
    pub fn duplicate(&self) -> (c: Self)
        ensures
            c == *self,
    {
        LsmConfig {
            enabled: self.enabled,
            module_name: self.module_name.clone(),
            lsm_name: self.lsm_name.clone(),
            hook_priority: self.hook_priority,
            auto_load: self.auto_load,
            rules_file: self.rules_file.clone(),
            log_file: self.log_file.clone(),
            audit_log: self.audit_log,
        }
    }
}

/// An operation on the kernel module's sources.
#[derive(Debug, Clone, Copy, PartialEq, Eq, Structural)]
pub enum LkmOperation {
    Build,
    Install,
    Remove,
}

/// The arguments of `make` for an operation.
pub open spec fn make_args(op: LkmOperation) -> Seq<Seq<char>> {
    match op {
        LkmOperation::Build => Seq::empty(),
        LkmOperation::Install => seq!["install"@],
        LkmOperation::Remove => seq!["uninstall"@],
    }
}

/// The message that prefixes the reason `make` could not run.
pub open spec fn make_failure(op: LkmOperation) -> Seq<char> {
    match op {
        LkmOperation::Build => "Failed to build LKM: "@,
        LkmOperation::Install => "Failed to install LKM: "@,
        LkmOperation::Remove => "Failed to remove LKM: "@,
    }
}

/// LKM (Loadable Kernel Module) manager: the configuration, the DKMS manager
/// that knows the LSM module, and whether the module was seen loaded.
pub struct LkmManager {
    config: LsmConfig,
    dkms_manager: DkmsManager,
    module_loaded: bool,
}

impl LkmManager {
    pub closed spec fn spec_config(&self) -> LsmConfig {
        self.config
    }

    pub closed spec fn spec_dkms(&self) -> DkmsManager {
        self.dkms_manager
    }

    /// The module was seen loaded.
    pub closed spec fn loaded_flag(&self) -> bool {
        self.module_loaded
    }

    /// A manager for the configured module, not yet seen loaded. Its DKMS
    /// manager is enabled, loads automatically, and knows only the LSM module.
    pub fn new(config: &LsmConfig) -> (m: Self)
        ensures
            m.spec_config() == *config,
            !m.loaded_flag(),
            m.spec_dkms().wf(),
            m.spec_dkms().table().len() == 0,
            m.spec_dkms().spec_config().enabled,
            m.spec_dkms().spec_config().auto_load,
            m.spec_dkms().spec_config().modules@.len() == 1,
            m.spec_dkms().spec_config().modules@[0].name@ == config.module_name@,
            m.spec_dkms().spec_config().modules@[0].description@ == "ccze LSM module"@,
            m.spec_dkms().spec_config().modprobe_command@ == "modprobe"@,
            m.spec_dkms().spec_config().lsmod_command@ == "lsmod"@,
    {
        let mut dkms_config = DkmsConfig::default();
        dkms_config.enabled = true;
        dkms_config.auto_load = true;
        dkms_config.modules = vec![
            ModuleDefinition::new(config.module_name.as_str(), "ccze LSM module"),
        ];
        LkmManager {
            config: config.duplicate(),
            dkms_manager: DkmsManager::new(dkms_config),
            module_loaded: false,
        }
    }

    /// The configuration.
    pub fn config(&self) -> (c: &LsmConfig)
        ensures
            *c == self.spec_config(),
    {
        &self.config
    }

    /// The DKMS manager.
    pub fn dkms_manager(&self) -> (d: &DkmsManager)
        ensures
            *d == self.spec_dkms(),
    {
        &self.dkms_manager
    }

    /// Whether the module is loaded: it was seen loaded, or else `lsmod` lists it.
    pub fn is_loaded(&self, lsmod: Result<CommandOutput, String>) -> (r: Result<bool, String>)
        ensures
            self.loaded_flag() ==> r == Ok::<bool, String>(true),
            !self.loaded_flag() ==> match lsmod {
                Ok(o) => r == Ok::<bool, String>(
                    o.success && crate::dkms::lsmod_lists(o.stdout@, self.spec_config().module_name@),
                ),
                Err(e) => r is Err && r->Err_0@ == "Failed to check module "@
                    + self.spec_config().module_name@ + ": "@ + e@,
            },
    {
        if self.module_loaded {
            return Ok(true);
        }
        self.dkms_manager.is_module_loaded(self.config.module_name.as_str(), lsmod)
    }


    /// Loading the module: its first step, which is the DKMS manager's.
    pub fn load(&self) -> (s: LkmStep)
        ensures
            s@ == lkm_after_dkms(self.spec_config().module_name@, start_spec(self.spec_dkms().spec_config(), ModuleTask::Load)),
    {
        let step = self.dkms_manager.start_task(self.config.module_name.as_str(), &ModuleTask::Load);
        self.follow_dkms(step)
    }

    /// The next step of loading the module, after the outcome of the command
    /// run at `stage`; the module is noted loaded when loading succeeds.
    pub fn load_step(&mut self, stage: LkmStage, outcome: Result<CommandOutput, String>) -> (s: LkmStep)
        ensures
            final(self).spec_config() == old(self).spec_config(),
            final(self).spec_dkms() == old(self).spec_dkms(),
            s@ == lkm_step_spec(old(self).spec_dkms().spec_config(), old(self).spec_config().module_name@, stage, outcome),
            final(self).loaded_flag() == (old(self).loaded_flag() || s@ == LkmStepView::Done(Ok::<bool, Seq<char>>(true))),
    {
        let step = match stage {
            LkmStage::Dkms(s) => {
                let inner = self.dkms_manager.step_task(
                    self.config.module_name.as_str(),
                    &ModuleTask::Load,
                    s,
                    outcome,
                );
                self.follow_dkms(inner)
            },
            LkmStage::Modprobe => match outcome {
                Err(e) => LkmStep::Done(Err(concat_str("Failed to load LKM: ", e.as_str()))),
                Ok(out) => {
                    if out.success {
                        LkmStep::Done(Ok(true))
                    } else {
                        let file = concat_str(
                            &concat_str("native/lkm/", self.config.module_name.as_str()),
                            ".ko",
                        );
                        let args = vec![file];
                        assert(views(args@) =~= seq![lkm_file(self.config.module_name@)]);
                        LkmStep::Run {
                            stage: LkmStage::Insmod,
                            command: CommandLine { program: String::from_str("insmod"), args },
                        }
                    }
                },
            },
            LkmStage::Insmod => match outcome {
                Ok(out) => LkmStep::Done(Ok(out.success)),
                Err(_) => LkmStep::Done(Ok(false)),
            },
        };
        match &step {
            LkmStep::Done(Ok(true)) => {
                self.module_loaded = true;
            },
            _ => {},
        }
        step
    }

    fn follow_dkms(&self, step: ModuleStep) -> (s: LkmStep)
        ensures
            s@ == lkm_after_dkms(self.spec_config().module_name@, step@),
    {
        match step {
            ModuleStep::Run { stage, command } => LkmStep::Run { stage: LkmStage::Dkms(stage), command },
            ModuleStep::Done(Ok(true)) => LkmStep::Done(Ok(true)),
            ModuleStep::Done(Ok(false)) => {
                let args = vec![self.config.module_name.clone()];
                assert(views(args@) =~= seq![self.config.module_name@]);
                LkmStep::Run {
                    stage: LkmStage::Modprobe,
                    command: CommandLine { program: String::from_str("modprobe"), args },
                }
            },
            ModuleStep::Done(Err(e)) => LkmStep::Done(Err(e)),
        }
    }

    /// The command of an operation on the module's sources, run in
    /// `native/lkm`: `make`, `make install` or `make uninstall`.
    pub fn make_command(&self, op: LkmOperation) -> (c: CommandLine)
        ensures
            c.program@ == "make"@,
            views(c.args@) == make_args(op),
    {
        let args: Vec<String> = match op {
            LkmOperation::Build => Vec::new(),
            LkmOperation::Install => vec![String::from_str("install")],
            LkmOperation::Remove => vec![String::from_str("uninstall")],
        };
        assert(views(args@) =~= make_args(op));
        CommandLine { program: String::from_str("make"), args }
    }

    /// The result of an operation on the module's sources: an error when the
    /// source directory is missing or `make` could not run, else whether
    /// `make` succeeded.
    pub fn make_outcome(&self, op: LkmOperation, sources_present: bool, ran: Result<bool, String>) -> (r: Result<
        bool,
        String,
    >)
        ensures
            !sources_present ==> (r matches Err(e) && e@ == "LKM source directory not found"@),
            sources_present ==> match ran {
                Ok(ok) => r == Ok::<bool, String>(ok),
                Err(why) => r matches Err(e) && e@ == make_failure(op) + why@,
            },
    {
        if !sources_present {
            return Err(String::from_str("LKM source directory not found"));
        }
        match ran {
            Ok(ok) => Ok(ok),
            Err(why) => {
                let prefix = match op {
                    LkmOperation::Build => "Failed to build LKM: ",
                    LkmOperation::Install => "Failed to install LKM: ",
                    LkmOperation::Remove => "Failed to remove LKM: ",
                };
                Err(concat_str(prefix, why.as_str()))
            },
        }
    }

    /// The command that unloads the module: `rmmod <module>`.
    pub fn unload_command(&self) -> (c: CommandLine)
        ensures
            c.program@ == "rmmod"@,
            views(c.args@) == seq![self.spec_config().module_name@],
    {
        let args = vec![self.config.module_name.clone()];
        assert(views(args@) =~= seq![self.config.module_name@]);
        CommandLine { program: String::from_str("rmmod"), args }
    }

    /// Takes the outcome of `rmmod`: when it succeeded the module is no longer loaded.
    pub fn unload(&mut self, rmmod: Result<CommandOutput, String>) -> (r: Result<bool, String>)
        ensures
            final(self).spec_config() == old(self).spec_config(),
            final(self).spec_dkms() == old(self).spec_dkms(),
            match rmmod {
                Ok(o) => r == Ok::<bool, String>(o.success) && final(self).loaded_flag() == (old(self).loaded_flag() && !o.success),
                Err(e) => r is Err && r->Err_0@ == "Failed to unload LKM: "@ + e@ && final(self).loaded_flag() == old(self).loaded_flag(),
            },
    {
        match rmmod {
            Err(e) => Err(concat_str("Failed to unload LKM: ", e.as_str())),
            Ok(o) => {
                if o.success {
                    self.module_loaded = false;
                    Ok(true)
                } else {
                    Ok(false)
                }
            },
        }
    }

    /// The module's version from `modinfo` (`Err` when it could not run).
    pub fn get_version(&self, modinfo: Result<CommandOutput, String>) -> (r: Result<String, String>)
        ensures
            match modinfo {
                Ok(o) => r is Ok && r->Ok_0@ == modinfo_version(o.success, o.stdout@),
                Err(e) => r is Err && r->Err_0@ == "Failed to get LKM version: "@ + e@,
            },
    {
        match modinfo {
            Err(e) => Err(concat_str("Failed to get LKM version: ", e.as_str())),
            Ok(o) => {
                if !o.success {
                    return Ok(String::from_str("unknown"));
                }
                let ls = lines_of(o.stdout.as_str());
                let ghost lv = views(ls@);
                let mut i: usize = 0;
                assert(lv.subrange(0, lv.len() as int) =~= lv);
                while i < ls.len()
                    invariant
                        i <= ls@.len(),
                        lv == views(ls@),
                        lv == lines(o.stdout@),
                        o.success,
                        modinfo == Ok::<CommandOutput, String>(o),
                        first_version_line(lv) == first_version_line(lv.subrange(i as int, lv.len() as int)),
                    decreases ls@.len() - i,
                {
                    let ghost rest = lv.subrange(i as int, lv.len() as int);
                    assert(rest[0] == ls@[i as int]@);
                    assert(rest.drop_first() =~= lv.subrange(i + 1, lv.len() as int));
                    if starts_with_exec(chars_of(ls[i].as_str()).as_slice(), chars_of("version:").as_slice()) {
                        let field = second_field_exec(ls[i].as_str());
                        return Ok(trim_str(field.as_str()));
                    }
                    i = i + 1;
                }
                assert(lv.subrange(i as int, lv.len() as int) =~= Seq::<Seq<char>>::empty());
                Ok(String::from_str("unknown"))
            },
        }
    }

    /// Whether the kernel has the LSM framework: the configuration of the running
    /// kernel (read only when its release is known) sets `CONFIG_LSM`, or else
    /// securityfs lists the active modules.
    pub fn is_lsm_available(&self, release: &str, boot_config: Option<&str>, securityfs_lsm: bool) -> (r: Result<bool, String>)
        ensures
            r == Ok::<bool, String>(
                lsm_configured(release@, boot_config) || securityfs_lsm,
            ),
    {
        let t = trim_str(release);
        if t.unicode_len() > 0 {
            match boot_config {
                Some(c) => {
                    let ls = lines_of(c);
                    let ghost lv = views(ls@);
                    let mut i: usize = 0;
                    while i < ls.len()
                        invariant
                            i <= ls@.len(),
                            lv == views(ls@),
                            lv == lines(c@),
                            trim(release@).len() > 0,
                            boot_config == Some(c),
                            forall|j: int| 0 <= j < i ==> !starts_with(#[trigger] lv[j], "CONFIG_LSM="@),
                        decreases ls@.len() - i,
                    {
                        assert(lv[i as int] == ls@[i as int]@);
                        if starts_with_exec(chars_of(ls[i].as_str()).as_slice(), chars_of("CONFIG_LSM=").as_slice()) {
                            assert(starts_with(lv[i as int], "CONFIG_LSM="@));
                            return Ok(true);
                        }
                        i = i + 1;
                    }
                },
                None => {},
            }
        }
        Ok(securityfs_lsm)
    }

    /// Notes the module as registered when the kernel's active LSM list
    /// (when it could be read) names it.
    pub fn register_lsm(&mut self, lsm_list: Option<&str>) -> (r: Result<bool, String>)
        ensures
            final(self).spec_config() == old(self).spec_config(),
            final(self).spec_dkms() == old(self).spec_dkms(),
            r is Ok,
            r->Ok_0 == (lsm_list matches Some(c) && contains_text(
                c@,
                old(self).spec_config().lsm_name@,
            )),
            final(self).loaded_flag() == (old(self).loaded_flag() || r->Ok_0),
    {
        match lsm_list {
            Some(c) => {
                if contains_exec(
                    chars_of(c).as_slice(),
                    chars_of(self.config.lsm_name.as_str()).as_slice(),
                ) {
                    self.module_loaded = true;
                    Ok(true)
                } else {
                    Ok(false)
                }
            },
            None => Ok(false),
        }
    }
}


/// Where loading the LSM module stands while it waits for a command's outcome.
#[derive(Debug, Clone, Copy, PartialEq, Eq, Structural)]
pub enum LkmStage {
    /// The DKMS manager is loading the module, at the given stage.
    Dkms(ModuleStage),
    /// `modprobe` runs on the module.
    Modprobe,
    /// `insmod` runs on the module file, when it is present.
    Insmod,
}

/// The next step of loading the LSM module.
#[derive(Debug)]
pub enum LkmStep {
    Run { stage: LkmStage, command: CommandLine },
    Done(Result<bool, String>),
}

/// What a step of loading the LSM module says.
pub enum LkmStepView {
    Run { stage: LkmStage, program: Seq<char>, args: Seq<Seq<char>> },
    Done(Result<bool, Seq<char>>),
}

impl View for LkmStep {
    type V = LkmStepView;

    open spec fn view(&self) -> LkmStepView {
        match self {
            LkmStep::Run { stage, command } => LkmStepView::Run {
                stage: *stage,
                program: command.program@,
                args: views(command.args@),
            },
            LkmStep::Done(r) => LkmStepView::Done(
                match r {
                    Ok(b) => Ok(*b),
                    Err(e) => Err(e@),
                },
            ),
        }
    }
}

/// The file `insmod` loads: `native/lkm/<module>.ko`.
pub open spec fn lkm_file(module: Seq<char>) -> Seq<char> {
    "native/lkm/"@ + module + ".ko"@
}

/// Following a step of the DKMS manager's load: its commands run as they are;
/// when it loaded the module, so has this; when it did not, `modprobe` is tried.
pub open spec fn lkm_after_dkms(module: Seq<char>, s: StepView) -> LkmStepView {
    match s {
        StepView::Run { stage, program, args } => LkmStepView::Run {
            stage: LkmStage::Dkms(stage),
            program,
            args,
        },
        StepView::Done(Ok(true)) => LkmStepView::Done(Ok(true)),
        StepView::Done(Ok(false)) => LkmStepView::Run {
            stage: LkmStage::Modprobe,
            program: "modprobe"@,
            args: seq![module],
        },
        StepView::Done(Err(e)) => LkmStepView::Done(Err(e)),
    }
}

/// The step after a command's outcome while loading the LSM module.
pub open spec fn lkm_step_spec(
    c: DkmsConfig,
    module: Seq<char>,
    stage: LkmStage,
    outcome: Result<CommandOutput, String>,
) -> LkmStepView {
    match stage {
        LkmStage::Dkms(s) => lkm_after_dkms(module, step_spec(c, module, ModuleTask::Load, s, outcome)),
        LkmStage::Modprobe => match outcome {
            Err(e) => LkmStepView::Done(Err("Failed to load LKM: "@ + e@)),
            Ok(out) => if out.success {
                LkmStepView::Done(Ok(true))
            } else {
                LkmStepView::Run {
                    stage: LkmStage::Insmod,
                    program: "insmod"@,
                    args: seq![lkm_file(module)],
                }
            },
        },
        LkmStage::Insmod => match outcome {
            Ok(out) => LkmStepView::Done(Ok(out.success)),
            Err(_) => LkmStepView::Done(Ok(false)),
        },
    }
}

/// The version `modinfo` reports: the trimmed second field of its first
/// `version:` line, `unknown` without one or when `modinfo` failed.
pub open spec fn modinfo_version(success: bool, stdout: Seq<char>) -> Seq<char> {
    if success {
        match first_version_line(lines(stdout)) {
            Some(l) => trim(second_field(l)),
            None => "unknown"@,
        }
    } else {
        "unknown"@
    }
}

/// The first line starting with `version:`.
pub open spec fn first_version_line(ls: Seq<Seq<char>>) -> Option<Seq<char>>
    decreases ls.len(),
{
    if ls.len() == 0 {
        None
    } else if starts_with(ls[0], "version:"@) {
        Some(ls[0])
    } else {
        first_version_line(ls.drop_first())
    }
}

/// The running kernel's configuration, read when its release is known, sets `CONFIG_LSM`.
pub open spec fn lsm_configured(release: Seq<char>, boot_config: Option<&str>) -> bool {
    trim(release).len() > 0 && match boot_config {
        Some(c) => sets_lsm(lines(c@)),
        None => false,
    }
}

/// A line of a kernel configuration that sets `CONFIG_LSM`.
pub open spec fn sets_lsm(ls: Seq<Seq<char>>) -> bool {
    exists|i: int| 0 <= i < ls.len() && starts_with(#[trigger] ls[i], "CONFIG_LSM="@)
}

/// The views of a list of rules.
pub open spec fn rule_views(s: Seq<LsmRule>) -> Seq<RuleView> {
    s.map_values(|r: LsmRule| r@)
}

/// The views of a list of decisions.
pub open spec fn decision_views(s: Seq<LsmDecision>) -> Seq<DecisionView> {
    s.map_values(|d: LsmDecision| d@)
}

/// The rule that decides a hook call: among the rules for the hook that match
/// the context, the one of highest priority, the earliest among equals.
pub open spec fn best_rule(rules: Seq<RuleView>, hook: LsmHookType, ctx: Map<Seq<char>, Seq<char>>) -> Option<int>
    decreases rules.len(),
{
    if rules.len() == 0 {
        None
    } else {
        let b = best_rule(rules.drop_last(), hook, ctx);
        let r = rules.last();
        if r.hook_type == hook && rule_matches(r, ctx) && (b is None || rules[b->0].priority
            < r.priority) {
            Some(rules.len() - 1)
        } else {
            b
        }
    }
}

/// The value of `key` read as a `u32`, or 0.
pub open spec fn ctx_u32(ctx: Map<Seq<char>, Seq<char>>, key: Seq<char>) -> u32 {
    if ctx.contains_key(key) {
        match parse_u32(ctx[key]) {
            Some(v) => v,
            None => 0,
        }
    } else {
        0
    }
}

/// The decision a rule gives: its action and description, the ids read from
/// the context, and the context.
pub open spec fn decision_for(r: RuleView, hook: LsmHookType, ctx: Map<Seq<char>, Seq<char>>) -> DecisionView {
    DecisionView {
        hook_type: hook,
        action: r.action,
        reason: r.description,
        pid: ctx_u32(ctx, "pid"@),
        uid: ctx_u32(ctx, "uid"@),
        gid: ctx_u32(ctx, "gid"@),
        context: ctx,
    }
}

/// The decision when no rule matches: allow, with ids 0.
pub open spec fn default_decision(hook: LsmHookType, ctx: Map<Seq<char>, Seq<char>>) -> DecisionView {
    DecisionView {
        hook_type: hook,
        action: LsmAction::Allow,
        reason: "No matching rule"@,
        pid: 0,
        uid: 0,
        gid: 0,
        context: ctx,
    }
}

/// The decision counts: (denied, allowed, audited), a silent deny counting as denied.
pub open spec fn decision_counts(s: Seq<DecisionView>) -> (nat, nat, nat)
    decreases s.len(),
{
    if s.len() == 0 {
        (0, 0, 0)
    } else {
        let c = decision_counts(s.drop_last());
        let a = s.last().action;
        (
            c.0 + if a == LsmAction::Deny || a == LsmAction::SilentDeny { 1nat } else { 0nat },
            c.1 + if a == LsmAction::Allow { 1nat } else { 0nat },
            c.2 + if a == LsmAction::Audit { 1nat } else { 0nat },
        )
    }
}

/// The index of the first rule with the name.
pub open spec fn first_named(rules: Seq<RuleView>, name: Seq<char>) -> Option<int>
    decreases rules.len(),
{
    if rules.len() == 0 {
        None
    } else {
        match first_named(rules.drop_last(), name) {
            Some(i) => Some(i),
            None => if rules.last().name == name {
                Some(rules.len() - 1)
            } else {
                None
            },
        }
    }
}

/// The audit log line of a decision taken at `timestamp` (seconds).
pub open spec fn log_line(d: DecisionView, timestamp: u64) -> Seq<char> {
    "["@ + decimal(timestamp as nat) + "] "@ + action_label(d.action) + " "@ + hook_name(d.hook_type)
        + " pid="@ + decimal(d.pid as nat) + " uid="@ + decimal(d.uid as nat) + " gid="@ + decimal(
        d.gid as nat,
    ) + " reason=\""@ + d.reason + "\"\n"@
}

/// The value of `key` read as a `u32`, or 0.
fn context_u32(context: &Context, key: &str) -> (r: u32)
    requires
        context.wf(),
    ensures
        r == ctx_u32(context@, key@),
{
    match context.get(key) {
        Some(v) => {
            let cs = chars_of(v.as_str());
            assert(cs@.subrange(0, cs@.len() as int) =~= cs@);
            match parse_u64_exec(cs.as_slice(), 0, cs.len()) {
                Some(n) => if n <= 0xffff_ffff {
                    n as u32
                } else {
                    0
                },
                None => 0,
            }
        },
        None => 0,
    }
}

/// The outcome of loading a rules file: no file keeps the rules, a file that
/// could not be read is an error that keeps them, and a file's rules replace
/// them, the built-in rules standing in when it states none.
pub open spec fn loaded_rules(
    before: Seq<RuleView>,
    rules_file: Option<Result<String, String>>,
    r: Result<(), String>,
    after: Seq<RuleView>,
) -> bool {
    match rules_file {
        None => r is Ok && after == before,
        Some(Err(e)) => r is Err && r->Err_0@ == "Failed to read rules file: "@ + e@ && after == before,
        Some(Ok(c)) => r is Ok && after == if parsed_rules(lines(c@)).len() == 0 {
            default_rule_views()
        } else {
            parsed_rules(lines(c@))
        },
    }
}

/// LSM statistics.
#[derive(Debug, Clone)]
pub struct LsmStats {
    pub enabled: bool,
    pub lsm_name: String,
    pub module_name: String,
    pub total_rules: usize,
    pub total_decisions: usize,
    pub denied: usize,
    pub allowed: usize,
    pub audited: usize,
}

/// The two sides of `s` around its only `->`; none when `->` does not occur
/// exactly once, as `s.split("->")` then gives other than two parts.
pub open spec fn split_arrow(s: Seq<char>) -> Option<(Seq<char>, Seq<char>)> {
    match find_text(s, "->"@, 0) {
        Some(p) => if find_text(s, "->"@, p + 2) is None {
            Some((s.subrange(0, p), s.subrange(p + 2, s.len() as int)))
        } else {
            None
        },
        None => None,
    }
}

/// The two sides of `s` around its only `=`; none when `=` does not occur exactly once.
pub open spec fn split_eq(s: Seq<char>) -> Option<(Seq<char>, Seq<char>)> {
    match find_char(s, '=', 0) {
        Some(p) => if find_char(s, '=', p + 1) is None {
            Some((s.subrange(0, p), s.subrange(p + 1, s.len() as int)))
        } else {
            None
        },
        None => None,
    }
}

/// The action a rule file names, in any case; unknown names deny.
pub open spec fn action_named(s: Seq<char>) -> LsmAction {
    let l = ascii_lower(s);
    if l == "allow"@ {
        LsmAction::Allow
    } else if l == "deny"@ {
        LsmAction::Deny
    } else if l == "audit"@ {
        LsmAction::Audit
    } else if l == "silent_deny"@ {
        LsmAction::SilentDeny
    } else {
        LsmAction::Deny
    }
}

/// The hook a rule file names; the rule file knows ten hooks, and any other
/// name stands for `file_open`.
pub open spec fn hook_named(s: Seq<char>) -> LsmHookType {
    if s == "file_open"@ {
        LsmHookType::FileOpen
    } else if s == "file_read"@ {
        LsmHookType::FileRead
    } else if s == "file_write"@ {
        LsmHookType::FileWrite
    } else if s == "file_execute"@ {
        LsmHookType::FileExecute
    } else if s == "process_exec"@ {
        LsmHookType::ProcessExec
    } else if s == "process_fork"@ {
        LsmHookType::ProcessFork
    } else if s == "socket_create"@ {
        LsmHookType::SocketCreate
    } else if s == "socket_bind"@ {
        LsmHookType::SocketBind
    } else if s == "capable"@ {
        LsmHookType::Capable
    } else if s == "syscall_entry"@ {
        LsmHookType::SyscallEntry
    } else {
        LsmHookType::FileOpen
    }
}

/// The conditions of a rule line: each `key=value` word is a string equality;
/// other words are ignored.
pub open spec fn rule_conditions(ws: Seq<Seq<char>>) -> Seq<CondView>
    decreases ws.len(),
{
    if ws.len() == 0 {
        Seq::empty()
    } else {
        let c = rule_conditions(ws.drop_last());
        match split_eq(ws.last()) {
            Some(kv) => c.push(CondView::StringEquals { key: kv.0, value: kv.1 }),
            None => c,
        }
    }
}

/// The rule a line of a rule file states, `name hook [key=value...] -> action`;
/// none for blank lines, comments, and lines of another shape.
pub open spec fn parse_rule_line(line: Seq<char>) -> Option<RuleView> {
    let t = trim(line);
    if t.len() == 0 || t[0] == '#' {
        None
    } else {
        match split_arrow(t) {
            None => None,
            Some(parts) => {
                let ws = words(trim(parts.0));
                if ws.len() < 2 {
                    None
                } else {
                    Some(
                        RuleView {
                            name: ws[0],
                            hook_type: hook_named(ws[1]),
                            conditions: rule_conditions(ws.subrange(2, ws.len() as int)),
                            action: action_named(trim(parts.1)),
                            priority: 100,
                            description: Seq::empty(),
                        },
                    )
                }
            },
        }
    }
}

/// The rules stated by the lines, in order.
pub open spec fn parsed_rules(ls: Seq<Seq<char>>) -> Seq<RuleView>
    decreases ls.len(),
{
    if ls.len() == 0 {
        Seq::empty()
    } else {
        let r = parsed_rules(ls.drop_last());
        match parse_rule_line(ls.last()) {
            Some(rule) => r.push(rule),
            None => r,
        }
    }
}

/// The built-in rules, used when a rule file states none.
pub open spec fn default_rule_views() -> Seq<RuleView> {
    seq![
        RuleView {
            name: "deny_exec_tmp"@,
            hook_type: LsmHookType::ProcessExec,
            conditions: seq![CondView::StringPrefix { key: "path"@, value: "/tmp/"@ }],
            action: LsmAction::Deny,
            priority: 200,
            description: "Deny execution from /tmp"@,
        },
        RuleView {
            name: "audit_setuid"@,
            hook_type: LsmHookType::ProcessSetuid,
            conditions: Seq::empty(),
            action: LsmAction::Audit,
            priority: 150,
            description: "Audit setuid calls"@,
        },
        RuleView {
            name: "deny_sys_admin"@,
            hook_type: LsmHookType::Capable,
            conditions: seq![
                CondView::NumericEquals { key: "cap"@, value: 21 },
                CondView::NumericGreaterThan { key: "uid"@, value: 0 },
            ],
            action: LsmAction::Deny,
            priority: 300,
            description: "Deny CAP_SYS_ADMIN for non-root users"@,
        },
        RuleView {
            name: "default_allow"@,
            hook_type: LsmHookType::SyscallEntry,
            conditions: Seq::empty(),
            action: LsmAction::Allow,
            priority: 10,
            description: "Default allow rule"@,
        },
    ]
}

/// The hook a rule file names.
fn hook_from_name(s: &str) -> (h: LsmHookType)
    ensures
        h == hook_named(s@),
{
    if same_text(s, "file_open") {
        LsmHookType::FileOpen
    } else if same_text(s, "file_read") {
        LsmHookType::FileRead
    } else if same_text(s, "file_write") {
        LsmHookType::FileWrite
    } else if same_text(s, "file_execute") {
        LsmHookType::FileExecute
    } else if same_text(s, "process_exec") {
        LsmHookType::ProcessExec
    } else if same_text(s, "process_fork") {
        LsmHookType::ProcessFork
    } else if same_text(s, "socket_create") {
        LsmHookType::SocketCreate
    } else if same_text(s, "socket_bind") {
        LsmHookType::SocketBind
    } else if same_text(s, "capable") {
        LsmHookType::Capable
    } else if same_text(s, "syscall_entry") {
        LsmHookType::SyscallEntry
    } else {
        LsmHookType::FileOpen
    }
}

/// The action a rule file names.
fn action_from_name(s: &str) -> (a: LsmAction)
    ensures
        a == action_named(s@),
{
    let cs = chars_of(s);
    if lower_equals(cs.as_slice(), "allow") {
        LsmAction::Allow
    } else if lower_equals(cs.as_slice(), "deny") {
        LsmAction::Deny
    } else if lower_equals(cs.as_slice(), "audit") {
        LsmAction::Audit
    } else if lower_equals(cs.as_slice(), "silent_deny") {
        LsmAction::SilentDeny
    } else {
        LsmAction::Deny
    }
}

/// LSM manager: the configuration, the rules, the recorded decisions, and the
/// module manager when enabled.
pub struct LsmManager {
    config: LsmConfig,
    rules: Vec<LsmRule>,
    decisions: Vec<LsmDecision>,
    lkm_manager: Option<LkmManager>,
}

impl LsmManager {
    pub closed spec fn spec_config(&self) -> LsmConfig {
        self.config
    }

    /// The rules, in order.
    pub closed spec fn rules(&self) -> Seq<RuleView> {
        rule_views(self.rules@)
    }

    /// The recorded decisions, oldest first.
    pub closed spec fn decisions(&self) -> Seq<DecisionView> {
        decision_views(self.decisions@)
    }

    pub closed spec fn spec_lkm(&self) -> Option<LkmManager> {
        self.lkm_manager
    }

    /// Every recorded decision has a well-formed context.
    pub closed spec fn wf(&self) -> bool {
        forall|i: int| 0 <= i < self.decisions@.len() ==> (#[trigger] self.decisions@[i]).context.wf()
    }

    /// A manager with no rules and no decisions; it has a module manager when enabled.
    pub fn new(config: LsmConfig) -> (m: Self)
        ensures
            m.wf(),
            m.spec_config() == config,
            m.rules().len() == 0,
            m.decisions().len() == 0,
            config.enabled == m.spec_lkm() is Some,
            m.spec_lkm() matches Some(l) ==> l.spec_config() == config && !l.loaded_flag(),
    {
        let lkm_manager = if config.enabled {
            Some(LkmManager::new(&config))
        } else {
            None
        };
        let m = LsmManager { config, rules: Vec::new(), decisions: Vec::new(), lkm_manager };
        assert(rule_views(m.rules@) =~= Seq::<RuleView>::empty());
        assert(decision_views(m.decisions@) =~= Seq::<DecisionView>::empty());
        m
    }


    /// The configuration.
    pub fn config(&self) -> (c: &LsmConfig)
        ensures
            *c == self.spec_config(),
    {
        &self.config
    }

    /// Loads the rules of the rules file when enabled; a disabled manager stays as it is.
    pub fn initialize(&mut self, rules_file: Option<Result<String, String>>) -> (r: Result<(), String>)
        requires
            old(self).wf(),
        ensures
            final(self).wf(),
            final(self).spec_config() == old(self).spec_config(),
            final(self).spec_lkm() == old(self).spec_lkm(),
            final(self).decisions() == old(self).decisions(),
            !old(self).spec_config().enabled ==> r is Ok && final(self).rules() == old(self).rules(),
            old(self).spec_config().enabled ==> loaded_rules(
                old(self).rules(),
                rules_file,
                r,
                final(self).rules(),
            ),
    {
        if !self.config.enabled {
            return Ok(());
        }
        self.load_rules(rules_file)
    }

    /// Replaces the rules by those of the rules file: `None` when there is no
    /// such file, which keeps the rules; the file's text, or why it could not be read.
    pub fn load_rules(&mut self, rules_file: Option<Result<String, String>>) -> (r: Result<(), String>)
        requires
            old(self).wf(),
        ensures
            final(self).wf(),
            final(self).spec_config() == old(self).spec_config(),
            final(self).spec_lkm() == old(self).spec_lkm(),
            final(self).decisions() == old(self).decisions(),
            loaded_rules(old(self).rules(), rules_file, r, final(self).rules()),
    {
        match rules_file {
            None => Ok(()),
            Some(Err(e)) => Err(concat_str("Failed to read rules file: ", e.as_str())),
            Some(Ok(contents)) => {
                let parsed = self.parse_rules(contents.as_str());
                match parsed {
                    Ok(rules) => {
                        if rules.len() == 0 {
                            self.rules = self.default_rules();
                        } else {
                            self.rules = rules;
                        }
                        Ok(())
                    },
                    Err(e) => Err(e),
                }
            },
        }
    }

    /// The rules stated by a rule file's text, in order.
    pub fn parse_rules(&self, contents: &str) -> (r: Result<Vec<LsmRule>, String>)
        ensures
            r is Ok,
            rule_views(r->Ok_0@) == parsed_rules(lines(contents@)),
    {
        let ls = lines_of(contents);
        let ghost lv = views(ls@);
        let mut rules: Vec<LsmRule> = Vec::new();
        let mut i: usize = 0;
        while i < ls.len()
            invariant
                i <= ls@.len(),
                lv == views(ls@),
                lv == lines(contents@),
                rule_views(rules@) == parsed_rules(lv.subrange(0, i as int)),
            decreases ls@.len() - i,
        {
            assert(lv.subrange(0, i + 1).drop_last() =~= lv.subrange(0, i as int));
            assert(lv.subrange(0, i + 1).last() == ls@[i as int]@);
            match self.parse_rule(ls[i].as_str()) {
                Some(rule) => {
                    let ghost before = rules@;
                    let ghost v = rule@;
                    rules.push(rule);
                    assert(rule_views(rules@) =~= rule_views(before).push(v));
                },
                None => {},
            }
            i = i + 1;
        }
        assert(lv.subrange(0, i as int) =~= lv);
        Ok(rules)
    }

    /// The rule one line of a rule file states.
    pub fn parse_rule(&self, line: &str) -> (r: Option<LsmRule>)
        ensures
            match r {
                Some(rule) => parse_rule_line(line@) == Some(rule@),
                None => parse_rule_line(line@) is None,
            },
    {
        let t = trim_str(line);
        let tc = chars_of(t.as_str());
        if tc.len() == 0 || tc[0] == '#' {
            return None;
        }
        let arrow = chars_of("->");
        proof {
            reveal_strlit("->");
            lemma_find_text(tc@, arrow@, 0);
        }
        let p = match find_text_exec(tc.as_slice(), arrow.as_slice(), 0) {
            Some(p) => p,
            None => {
                return None;
            },
        };
        proof {
            lemma_find_text(tc@, arrow@, p + 2);
        }
        if find_text_exec(tc.as_slice(), arrow.as_slice(), p + 2).is_some() {
            return None;
        }
        let left = substring(t.as_str(), 0, p);
        let right = substring(t.as_str(), p + 2, tc.len());
        let ws = split_words(trim_str(left.as_str()).as_str());
        if ws.len() < 2 {
            return None;
        }
        let action = action_from_name(trim_str(right.as_str()).as_str());
        let hook = hook_from_name(ws[1].as_str());
        let mut rule = LsmRule::new(ws[0].as_str(), hook, action);
        let ghost wv = views(ws@);
        assert(wv[0] == ws@[0]@ && wv[1] == ws@[1]@);
        let mut i: usize = 2;
        while i < ws.len()
            invariant
                2 <= i <= ws@.len(),
                wv == views(ws@),
                rule@ == (RuleView {
                    name: wv[0],
                    hook_type: hook,
                    conditions: rule_conditions(wv.subrange(2, i as int)),
                    action,
                    priority: 100,
                    description: Seq::empty(),
                }),
            decreases ws@.len() - i,
        {
            assert(wv.subrange(2, i + 1).drop_last() =~= wv.subrange(2, i as int));
            assert(wv.subrange(2, i + 1).last() == ws@[i as int]@);
            match self.parse_condition(ws[i].as_str()) {
                Some((key, value)) => {
                    rule = rule.with_condition(LsmCondition::StringEquals { key, value });
                },
                None => {},
            }
            i = i + 1;
        }
        Some(rule)
    }

    /// The key and value of a `key=value` word.
    pub fn parse_condition(&self, condition: &str) -> (r: Option<(String, String)>)
        ensures
            match r {
                Some(kv) => split_eq(condition@) == Some((kv.0@, kv.1@)),
                None => split_eq(condition@) is None,
            },
    {
        let cs = chars_of(condition);
        proof {
            lemma_find_char(cs@, '=', 0);
        }
        let p = match find_char_exec(cs.as_slice(), '=', 0) {
            Some(p) => p,
            None => {
                return None;
            },
        };
        proof {
            lemma_find_char(cs@, '=', p + 1);
        }
        if find_char_exec(cs.as_slice(), '=', p + 1).is_some() {
            return None;
        }
        Some((substring(condition, 0, p), substring(condition, p + 1, cs.len())))
    }

    /// The built-in rules.
    pub fn default_rules(&self) -> (r: Vec<LsmRule>)
        ensures
            rule_views(r@) == default_rule_views(),
    {
        let r = vec![
            LsmRule::new("deny_exec_tmp", LsmHookType::ProcessExec, LsmAction::Deny).with_condition(
                LsmCondition::StringPrefix {
                    key: String::from_str("path"),
                    value: String::from_str("/tmp/"),
                },
            ).with_priority(200).with_description("Deny execution from /tmp"),
            LsmRule::new("audit_setuid", LsmHookType::ProcessSetuid, LsmAction::Audit).with_priority(
                150,
            ).with_description("Audit setuid calls"),
            LsmRule::new("deny_sys_admin", LsmHookType::Capable, LsmAction::Deny).with_condition(
                LsmCondition::NumericEquals { key: String::from_str("cap"), value: 21 },
            ).with_condition(
                LsmCondition::NumericGreaterThan { key: String::from_str("uid"), value: 0 },
            ).with_priority(300).with_description("Deny CAP_SYS_ADMIN for non-root users"),
            LsmRule::new("default_allow", LsmHookType::SyscallEntry, LsmAction::Allow).with_priority(
                10,
            ).with_description("Default allow rule"),
        ];
        assert(rule_views(r@) =~= default_rule_views()) by {
            assert(r@[0]@.conditions =~= seq![
                CondView::StringPrefix { key: "path"@, value: "/tmp/"@ },
            ]);
            assert(r@[2]@.conditions =~= seq![
                CondView::NumericEquals { key: "cap"@, value: 21 },
                CondView::NumericGreaterThan { key: "uid"@, value: 0 },
            ]);
        }
        r
    }

    /// Adds a rule after the others.
    pub fn add_rule(&mut self, rule: LsmRule) -> (r: Result<(), String>)
        requires
            old(self).wf(),
        ensures
            r is Ok,
            final(self).wf(),
            final(self).spec_config() == old(self).spec_config(),
            final(self).spec_lkm() == old(self).spec_lkm(),
            final(self).decisions() == old(self).decisions(),
            final(self).rules() == old(self).rules().push(rule@),
    {
        let ghost v = rule@;
        self.rules.push(rule);
        assert(rule_views(self.rules@) =~= rule_views(old(self).rules@).push(v));
        Ok(())
    }

    /// Removes the first rule with the name; tells whether there was one.
    pub fn remove_rule(&mut self, name: &str) -> (r: Result<bool, String>)
        requires
            old(self).wf(),
        ensures
            final(self).wf(),
            final(self).spec_config() == old(self).spec_config(),
            final(self).spec_lkm() == old(self).spec_lkm(),
            final(self).decisions() == old(self).decisions(),
            match first_named(old(self).rules(), name@) {
                Some(i) => r == Ok::<bool, String>(true) && final(self).rules() == old(self).rules().remove(i),
                None => r == Ok::<bool, String>(false) && final(self).rules() == old(self).rules(),
            },
    {
        let ghost rv = rule_views(self.rules@);
        let mut i: usize = 0;
        while i < self.rules.len()
            invariant
                i <= self.rules@.len(),
                rv == rule_views(self.rules@),
                self.rules@ == old(self).rules@,
                self.config == old(self).config,
                self.decisions@ == old(self).decisions@,
                self.lkm_manager == old(self).lkm_manager,
                self.wf(),
                first_named(rv.subrange(0, i as int), name@) is None,
            decreases self.rules@.len() - i,
        {
            assert(rv.subrange(0, i + 1).drop_last() =~= rv.subrange(0, i as int));
            if crate::parser::same_text(self.rules[i].name.as_str(), name) {
                proof {
                    lemma_first_named_prefix(rv, name@, i as int + 1);
                }
                self.rules.remove(i);
                assert(rule_views(self.rules@) =~= rv.remove(i as int));
                return Ok(true);
            }
            i = i + 1;
        }
        proof {
            assert(rv.subrange(0, i as int) =~= rv);
        }
        Ok(false)
    }

    /// Decides a hook call: the best rule for it, when one matches, decides and
    /// the decision is recorded; otherwise the call is allowed and nothing is recorded.
    pub fn evaluate_hook(&mut self, hook_type: LsmHookType, context: &Context) -> (d: LsmDecision)
        requires
            old(self).wf(),
            context.wf(),
        ensures
            final(self).wf(),
            d.context.wf(),
            final(self).spec_config() == old(self).spec_config(),
            final(self).spec_lkm() == old(self).spec_lkm(),
            final(self).rules() == old(self).rules(),
            match best_rule(old(self).rules(), hook_type, context@) {
                Some(i) => d@ == decision_for(old(self).rules()[i], hook_type, context@) && final(self).decisions() == old(self).decisions().push(d@),
                None => d@ == default_decision(hook_type, context@) && final(self).decisions() == old(self).decisions(),
            },
    {
        let ghost rv = rule_views(self.rules@);
        let mut best: Option<usize> = None;
        let mut i: usize = 0;
        while i < self.rules.len()
            invariant
                i <= self.rules@.len(),
                rv == rule_views(self.rules@),
                context.wf(),
                best matches Some(b) ==> b < i,
                (match best {
                    Some(b) => Some(b as int),
                    None => None,
                }) == best_rule(rv.subrange(0, i as int), hook_type, context@),
            decreases self.rules@.len() - i,
        {
            let ghost pre = rv.subrange(0, i + 1);
            assert(pre.drop_last() =~= rv.subrange(0, i as int));
            assert(pre.last() == self.rules@[i as int]@);
            if self.rules[i].hook_type == hook_type && self.rules[i].matches(context) {
                match best {
                    None => {
                        best = Some(i);
                    },
                    Some(b) => {
                        assert(pre[b as int] == self.rules@[b as int]@);
                        if self.rules[b].priority < self.rules[i].priority {
                            best = Some(i);
                        }
                    },
                }
            } else {
                match best {
                    Some(b) => {
                        assert(pre[b as int] == self.rules@[b as int]@);
                    },
                    None => {},
                }
            }
            i = i + 1;
        }
        assert(rv.subrange(0, i as int) =~= rv);
        match best {
            Some(b) => {
                let rule = &self.rules[b];
                let mut decision = LsmDecision::new(hook_type, rule.action, rule.description.as_str());
                decision.context = context.duplicate();
                decision.pid = context_u32(context, "pid");
                decision.uid = context_u32(context, "uid");
                decision.gid = context_u32(context, "gid");
                let ghost before = self.decisions@;
                let record = decision.duplicate();
                self.decisions.push(record);
                assert(decision_views(self.decisions@) =~= decision_views(before).push(decision@));
                decision
            },
            None => {
                let mut decision = LsmDecision::new(hook_type, LsmAction::Allow, "No matching rule");
                decision.context = context.duplicate();
                decision
            },
        }
    }

    /// The audit log line of a decision taken at `timestamp`; none when auditing is off.
    pub fn log_entry(&self, decision: &LsmDecision, timestamp: u64) -> (r: Option<String>)
        ensures
            match r {
                Some(line) => self.spec_config().audit_log && line@ == log_line(decision@, timestamp),
                None => !self.spec_config().audit_log,
            },
    {
        if !self.config.audit_log {
            return None;
        }
        let action = match decision.action {
            LsmAction::Allow => "ALLOW",
            LsmAction::Deny => "DENY",
            LsmAction::Audit => "AUDIT",
            LsmAction::SilentDeny => "SILENT_DENY",
        };
        let mut line = concat_str("[", decimal_string(timestamp).as_str());
        line = concat_str(line.as_str(), "] ");
        line = concat_str(line.as_str(), action);
        line = concat_str(line.as_str(), " ");
        line = concat_str(line.as_str(), decision.hook_type.as_str());
        line = concat_str(line.as_str(), " pid=");
        line = concat_str(line.as_str(), decimal_string(decision.pid as u64).as_str());
        line = concat_str(line.as_str(), " uid=");
        line = concat_str(line.as_str(), decimal_string(decision.uid as u64).as_str());
        line = concat_str(line.as_str(), " gid=");
        line = concat_str(line.as_str(), decimal_string(decision.gid as u64).as_str());
        line = concat_str(line.as_str(), " reason=\"");
        line = concat_str(line.as_str(), decision.reason.as_str());
        line = concat_str(line.as_str(), "\"\n");
        Some(line)
    }

    /// All rules, in order.
    pub fn list_rules(&self) -> (r: Vec<LsmRule>)
        ensures
            rule_views(r@) == self.rules(),
    {
        let mut r: Vec<LsmRule> = Vec::new();
        let mut i: usize = 0;
        while i < self.rules.len()
            invariant
                i <= self.rules@.len(),
                r@.len() == i,
                forall|j: int| 0 <= j < i ==> (#[trigger] r@[j])@ == self.rules@[j]@,
            decreases self.rules@.len() - i,
        {
            r.push(self.rules[i].duplicate());
            i = i + 1;
        }
        assert(rule_views(r@) =~= rule_views(self.rules@));
        r
    }

    /// The most recent decisions, newest first, at most `limit` of them.
    pub fn list_decisions(&self, limit: usize) -> (r: Vec<LsmDecision>)
        requires
            self.wf(),
        ensures
            r@.len() == if limit < self.decisions().len() {
                limit as nat
            } else {
                self.decisions().len()
            },
            forall|i: int|
                0 <= i < r@.len() ==> (#[trigger] r@[i])@ == self.decisions()[self.decisions().len() - 1
                    - i],
    {
        let n = self.decisions.len();
        let mut r: Vec<LsmDecision> = Vec::new();
        let mut i: usize = 0;
        while i < n && i < limit
            invariant
                n == self.decisions@.len(),
                self.wf(),
                i <= n,
                i <= limit,
                r@.len() == i,
                forall|j: int| 0 <= j < i ==> (#[trigger] r@[j])@ == self.decisions@[n - 1 - j]@,
            decreases n - i,
        {
            r.push(self.decisions[n - 1 - i].duplicate());
            i = i + 1;
        }
        r
    }

    /// Forgets every recorded decision.
    pub fn clear_decisions(&mut self) -> (r: Result<(), String>)
        ensures
            r is Ok,
            final(self).wf(),
            final(self).spec_config() == old(self).spec_config(),
            final(self).spec_lkm() == old(self).spec_lkm(),
            final(self).rules() == old(self).rules(),
            final(self).decisions().len() == 0,
    {
        self.decisions.clear();
        Ok(())
    }

    /// The module manager, when enabled.
    pub fn get_lkm_manager(&self) -> (r: Option<&LkmManager>)
        ensures
            match r {
                Some(l) => self.spec_lkm() == Some(*l),
                None => self.spec_lkm() is None,
            },
    {
        match &self.lkm_manager {
            Some(l) => Some(l),
            None => None,
        }
    }

    /// Statistics over the rules and the recorded decisions.
    pub fn get_stats(&self) -> (s: LsmStats)
        ensures
            s.enabled == self.spec_config().enabled,
            s.lsm_name@ == self.spec_config().lsm_name@,
            s.module_name@ == self.spec_config().module_name@,
            s.total_rules == self.rules().len(),
            s.total_decisions == self.decisions().len(),
            s.denied == decision_counts(self.decisions()).0,
            s.allowed == decision_counts(self.decisions()).1,
            s.audited == decision_counts(self.decisions()).2,
    {
        let ghost dv = decision_views(self.decisions@);
        let mut denied: usize = 0;
        let mut allowed: usize = 0;
        let mut audited: usize = 0;
        let mut i: usize = 0;
        while i < self.decisions.len()
            invariant
                i <= self.decisions@.len(),
                dv == decision_views(self.decisions@),
                (denied as nat, allowed as nat, audited as nat) == decision_counts(dv.subrange(0, i as int)),
                denied <= i,
                allowed <= i,
                audited <= i,
            decreases self.decisions@.len() - i,
        {
            assert(dv.subrange(0, i + 1).drop_last() =~= dv.subrange(0, i as int));
            assert(dv.subrange(0, i + 1).last() == self.decisions@[i as int]@);
            match self.decisions[i].action {
                LsmAction::Deny | LsmAction::SilentDeny => {
                    denied = denied + 1;
                },
                LsmAction::Allow => {
                    allowed = allowed + 1;
                },
                LsmAction::Audit => {
                    audited = audited + 1;
                },
            }
            i = i + 1;
        }
        assert(dv.subrange(0, i as int) =~= dv);
        LsmStats {
            enabled: self.config.enabled,
            lsm_name: self.config.lsm_name.clone(),
            module_name: self.config.module_name.clone(),
            total_rules: self.rules.len(),
            total_decisions: self.decisions.len(),
            denied,
            allowed,
            audited,
        }
    }
}

/// Within a prefix that has no rule of the name, the first such rule is the next one that has it.
proof fn lemma_first_named_prefix(rv: Seq<RuleView>, name: Seq<char>, k: int)
    requires
        1 <= k <= rv.len(),
        first_named(rv.subrange(0, k - 1), name) is None,
        rv[k - 1].name == name,
    ensures
        first_named(rv, name) == Some(k - 1),
    decreases rv.len() - k,
{
    assert(rv.subrange(0, k).drop_last() =~= rv.subrange(0, k - 1));
    assert(first_named(rv.subrange(0, k), name) == Some(k - 1));
    lemma_first_named_extend(rv, name, k);
}

/// Once the first rule of a name is found in a prefix, longer prefixes find the same one.
proof fn lemma_first_named_extend(rv: Seq<RuleView>, name: Seq<char>, k: int)
    requires
        0 <= k <= rv.len(),
        first_named(rv.subrange(0, k), name) is Some,
    ensures
        first_named(rv, name) == first_named(rv.subrange(0, k), name),
    decreases rv.len() - k,
{
    if k < rv.len() {
        assert(rv.subrange(0, k + 1).drop_last() =~= rv.subrange(0, k));
        lemma_first_named_extend(rv, name, k + 1);
    } else {
        assert(rv.subrange(0, k) =~= rv);
    }
}

/// The value of a hexadecimal digit.
pub open spec fn hex_digit_value(c: char) -> int {
    if '0' <= c <= '9' {
        c as int - 48
    } else if 'a' <= c <= 'f' {
        c as int - 87
    } else {
        c as int - 55
    }
}

pub open spec fn is_hex_digit(c: char) -> bool {
    ('0' <= c <= '9') || ('a' <= c <= 'f') || ('A' <= c <= 'F')
}

/// The value of a hexadecimal digit sequence.
pub open spec fn hex_value(s: Seq<char>) -> nat
    decreases s.len(),
{
    if s.len() == 0 {
        0
    } else {
        (hex_value(s.drop_last()) * 16 + hex_digit_value(s.last())) as nat
    }
}

/// The text without one leading `+`.
pub open spec fn sign_stripped(s: Seq<char>) -> Seq<char> {
    if s.len() > 0 && s[0] == '+' {
        s.drop_first()
    } else {
        s
    }
}

/// Every character is a hexadecimal digit.
pub open spec fn all_hex(s: Seq<char>) -> bool {
    forall|i: int| 0 <= i < s.len() ==> is_hex_digit(#[trigger] s[i])
}

/// `u64::from_str_radix(s, 16)`: an optional `+` followed by hexadecimal digits
/// of either case whose value fits in `u64`.
pub open spec fn parse_hex(s: Seq<char>) -> Option<u64> {
    let body = sign_stripped(s);
    if body.len() > 0 && all_hex(body) && hex_value(body) <= u64::MAX {
        Some(hex_value(body) as u64)
    } else {
        None
    }
}

/// A prefix of hexadecimal digits is worth no more than the whole.
proof fn lemma_hex_prefix(s: Seq<char>, n: int)
    requires
        0 <= n <= s.len(),
        forall|i: int| 0 <= i < s.len() ==> is_hex_digit(#[trigger] s[i]),
    ensures
        hex_value(s.subrange(0, n)) <= hex_value(s),
    decreases s.len() - n,
{
    if n < s.len() {
        lemma_hex_prefix(s, n + 1);
        assert(s.subrange(0, n + 1).drop_last() =~= s.subrange(0, n));
        assert(is_hex_digit(s[n]));
    } else {
        assert(s.subrange(0, n) =~= s);
    }
}

/// Parses hexadecimal text as `u64::from_str_radix(s, 16)` does.
pub fn parse_hex_exec(s: &[char]) -> (r: Option<u64>)
    ensures
        r == parse_hex(s@),
{
    let mut start: usize = 0;
    if s.len() > 0 && s[0] == '+' {
        start = 1;
    }
    let ghost body = s@.subrange(start as int, s@.len() as int);
    assert(body =~= sign_stripped(s@));
    if start == s.len() {
        assert(body.len() == 0);
        return None;
    }
    let mut value: u64 = 0;
    let mut k = start;
    while k < s.len()
        invariant
            start < s@.len(),
            start <= k <= s@.len(),
            body == s@.subrange(start as int, s@.len() as int),
            body == sign_stripped(s@),
            forall|i: int| start <= i < k ==> is_hex_digit(s@[i]),
            value == hex_value(s@.subrange(start as int, k as int)),
        decreases s@.len() - k,
    {
        let c = s[k];
        let d: u64 = if '0' <= c && c <= '9' {
            (c as u32 - 48) as u64
        } else if 'a' <= c && c <= 'f' {
            (c as u32 - 87) as u64
        } else if 'A' <= c && c <= 'F' {
            (c as u32 - 55) as u64
        } else {
            assert(body[k - start] == c);
            assert(!is_hex_digit(body[k - start]));
            assert(!all_hex(body));
            return None;
        };
        assert(s@.subrange(start as int, k + 1).drop_last() =~= s@.subrange(start as int, k as int));
        assert(hex_value(s@.subrange(start as int, k + 1)) == value * 16 + d);
        if value > (u64::MAX - d) / 16 {
            proof {
                assert(hex_value(s@.subrange(start as int, k + 1)) > u64::MAX) by (nonlinear_arith)
                    requires
                        hex_value(s@.subrange(start as int, k + 1)) == value * 16 + d,
                        value > (u64::MAX - d) / 16,
                        d <= 15,
                ;
                if all_hex(body) {
                    lemma_hex_prefix(body, k + 1 - start);
                    assert(body.subrange(0, k + 1 - start) =~= s@.subrange(start as int, k + 1));
                    assert(hex_value(body) > u64::MAX);
                }
            }
            return None;
        }
        value = value * 16 + d;
        k = k + 1;
    }
    assert(s@.subrange(start as int, s@.len() as int) =~= body);
    Some(value)
}

/// The capability bit is set in the hexadecimal mask (surrounding
/// whitespace aside); capabilities from 40 on are never set.
pub open spec fn cap_bit_set(caps: Seq<char>, capability: u32) -> bool {
    capability < 40 && match parse_hex(trim(caps)) {
        Some(v) => v & (1u64 << capability) != 0,
        None => false,
    }
}

/// A `CapEff:` or `CapPrm:` line of a process status.
pub open spec fn is_cap_line(line: Seq<char>) -> bool {
    starts_with(line, "CapEff:"@) || starts_with(line, "CapPrm:"@)
}

/// The first capability line.
pub open spec fn first_cap_line(ls: Seq<Seq<char>>) -> Option<Seq<char>>
    decreases ls.len(),
{
    if ls.len() == 0 {
        None
    } else if is_cap_line(ls[0]) {
        Some(ls[0])
    } else {
        first_cap_line(ls.drop_first())
    }
}

/// The second `:`-separated field of a line, `line.split(':').nth(1)`, or
/// empty text when there is no `:`.
pub open spec fn second_field(line: Seq<char>) -> Seq<char> {
    match find_char(line, ':', 0) {
        Some(p) => {
            let rest = line.subrange(p + 1, line.len() as int);
            match find_char(rest, ':', 0) {
                Some(q) => rest.subrange(0, q),
                None => rest,
            }
        },
        None => Seq::empty(),
    }
}

/// A process status grants the capability: its first capability line sets the bit.
pub open spec fn status_has_cap(status: Seq<char>, capability: u32) -> bool {
    match first_cap_line(lines(status)) {
        Some(l) => cap_bit_set(second_field(l), capability),
        None => false,
    }
}

/// The name of a capability.
pub open spec fn cap_name(c: u32) -> Seq<char> {
    match c {
        0 => "CAP_CHOWN"@,
        1 => "CAP_DAC_OVERRIDE"@,
        2 => "CAP_DAC_READ_SEARCH"@,
        3 => "CAP_FOWNER"@,
        4 => "CAP_FSETID"@,
        5 => "CAP_KILL"@,
        6 => "CAP_SETGID"@,
        7 => "CAP_SETUID"@,
        8 => "CAP_SETPCAP"@,
        9 => "CAP_LINUX_IMMUTABLE"@,
        10 => "CAP_NET_BIND_SERVICE"@,
        11 => "CAP_NET_BROADCAST"@,
        12 => "CAP_NET_ADMIN"@,
        13 => "CAP_NET_RAW"@,
        14 => "CAP_IPC_LOCK"@,
        15 => "CAP_IPC_OWNER"@,
        16 => "CAP_SYS_MODULE"@,
        17 => "CAP_SYS_RAWIO"@,
        18 => "CAP_SYS_CHROOT"@,
        19 => "CAP_SYS_PTRACE"@,
        20 => "CAP_SYS_PACCT"@,
        21 => "CAP_SYS_ADMIN"@,
        22 => "CAP_SYS_BOOT"@,
        23 => "CAP_SYS_NICE"@,
        24 => "CAP_SYS_RESOURCE"@,
        25 => "CAP_SYS_TIME"@,
        26 => "CAP_SYS_TTY_CONFIG"@,
        27 => "CAP_MKNOD"@,
        28 => "CAP_LEASE"@,
        29 => "CAP_AUDIT_WRITE"@,
        30 => "CAP_AUDIT_CONTROL"@,
        31 => "CAP_SETFCAP"@,
        32 => "CAP_MAC_OVERRIDE"@,
        33 => "CAP_MAC_ADMIN"@,
        34 => "CAP_SYSLOG"@,
        35 => "CAP_WAKE_ALARM"@,
        36 => "CAP_BLOCK_SUSPEND"@,
        37 => "CAP_AUDIT_READ"@,
        _ => "CAP_"@ + decimal(c as nat),
    }
}

/// The names of the capabilities below `n` that a process status grants, in order.
pub open spec fn granted_caps(status: Seq<char>, n: u32) -> Seq<Seq<char>>
    decreases n,
{
    if n == 0 {
        Seq::empty()
    } else {
        let r = granted_caps(status, (n - 1) as u32);
        if status_has_cap(status, (n - 1) as u32) {
            r.push(cap_name((n - 1) as u32))
        } else {
            r
        }
    }
}

/// The non-empty pieces of `s` between commas, in order (`s.split(',')`
/// without its empty pieces).
pub open spec fn comma_items(s: Seq<char>) -> Seq<Seq<char>>
    decreases s.len(),
{
    match find_char(s, ',', 0) {
        Some(p) => if 0 <= p < s.len() {
            (if p > 0 {
                seq![s.subrange(0, p)]
            } else {
                Seq::empty()
            }) + comma_items(s.subrange(p + 1, s.len() as int))
        } else {
            Seq::empty()
        },
        None => if s.len() > 0 {
            seq![s]
        } else {
            Seq::empty()
        },
    }
}

/// The capabilities listed after the first `=` of a line; none without one.
pub open spec fn caps_after_eq(line: Seq<char>) -> Seq<Seq<char>> {
    match find_char(line, '=', 0) {
        Some(eq) => comma_items(line.subrange(eq + 1, line.len() as int)),
        None => Seq::empty(),
    }
}

/// The bounding set `capsh --decode` prints: the capabilities of the first line
/// that mentions `Bounding set`.
pub open spec fn bounding_set(ls: Seq<Seq<char>>) -> Seq<Seq<char>>
    decreases ls.len(),
{
    if ls.len() == 0 {
        Seq::empty()
    } else if contains_text(ls[0], "Bounding set"@) {
        caps_after_eq(ls[0])
    } else {
        bounding_set(ls.drop_first())
    }
}

/// A section header of `capsh` output.
pub open spec fn is_section_header(t: Seq<char>) -> bool {
    starts_with(t, "Current:"@) || starts_with(t, "Bounding set:"@) || starts_with(t, "Ambient set:"@)
        || starts_with(t, "Securebits:"@)
}

/// The words of a continuation line that name capabilities (`cap_...`).
pub open spec fn cap_words(ws: Seq<Seq<char>>) -> Seq<Seq<char>>
    decreases ws.len(),
{
    if ws.len() == 0 {
        Seq::empty()
    } else {
        let r = cap_words(ws.drop_last());
        if ws.last().len() > 0 && starts_with(ws.last(), "cap_"@) {
            r.push(ws.last())
        } else {
            r
        }
    }
}

/// The reading of `capsh` output so far: the finished sections, the current
/// section's header line (empty before the first), and its capabilities.
pub struct CapshReading {
    pub sections: Map<Seq<char>, Seq<Seq<char>>>,
    pub section: Seq<char>,
    pub caps: Seq<Seq<char>>,
}

/// Reads one more line of `capsh` output: a header line closes the current
/// section and opens its own, taking the capabilities after its `=`; another
/// non-blank line adds its `cap_` words to the current section.
pub open spec fn capsh_step(r: CapshReading, line: Seq<char>) -> CapshReading {
    let t = trim(line);
    if t.len() == 0 {
        r
    } else if is_section_header(t) {
        CapshReading {
            sections: if r.section.len() > 0 {
                r.sections.insert(r.section, r.caps)
            } else {
                r.sections
            },
            section: t,
            caps: (if r.section.len() > 0 {
                Seq::empty()
            } else {
                r.caps
            }) + caps_after_eq(t),
        }
    } else if r.section.len() > 0 {
        CapshReading { caps: r.caps + cap_words(words(t)), ..r }
    } else {
        r
    }
}

/// The reading after the lines.
pub open spec fn capsh_reading(ls: Seq<Seq<char>>) -> CapshReading
    decreases ls.len(),
{
    if ls.len() == 0 {
        CapshReading { sections: Map::empty(), section: Seq::empty(), caps: Seq::empty() }
    } else {
        capsh_step(capsh_reading(ls.drop_last()), ls.last())
    }
}

/// Every section of `capsh` output with its capabilities; a section that
/// appears twice keeps its last capabilities.
pub open spec fn capsh_sections(ls: Seq<Seq<char>>) -> Map<Seq<char>, Seq<Seq<char>>> {
    let r = capsh_reading(ls);
    if r.section.len() > 0 {
        r.sections.insert(r.section, r.caps)
    } else {
        r.sections
    }
}

/// The non-empty pieces between commas, owned.
fn comma_items_exec(s: &str) -> (r: Vec<String>)
    ensures
        views(r@) == comma_items(s@),
    decreases s@.len(),
{
    let cs = chars_of(s);
    proof {
        lemma_find_char(cs@, ',', 0);
    }
    match find_char_exec(cs.as_slice(), ',', 0) {
        Some(p) => {
            let n = cs.len();
            let rest = substring(s, p + 1, n);
            let tail = comma_items_exec(rest.as_str());
            let mut r: Vec<String> = Vec::new();
            if p > 0 {
                r.push(substring(s, 0, p));
            }
            let ghost head = views(r@);
            let mut i: usize = 0;
            while i < tail.len()
                invariant
                    i <= tail@.len(),
                    views(r@) == head + views(tail@).subrange(0, i as int),
                decreases tail@.len() - i,
            {
                let ghost before = r@;
                r.push(tail[i].clone());
                assert(views(r@) =~= views(before).push(tail@[i as int]@));
                assert(views(tail@).subrange(0, i + 1) =~= views(tail@).subrange(0, i as int).push(
                    tail@[i as int]@,
                ));
                i = i + 1;
            }
            assert(views(tail@).subrange(0, tail@.len() as int) =~= views(tail@));
            assert(head =~= (if p > 0 {
                seq![s@.subrange(0, p as int)]
            } else {
                Seq::<Seq<char>>::empty()
            }));
            r
        },
        None => {
            let mut r: Vec<String> = Vec::new();
            if cs.len() > 0 {
                r.push(String::from_str(s));
                assert(views(r@) =~= seq![s@]);
            } else {
                assert(views(r@) =~= Seq::<Seq<char>>::empty());
            }
            r
        },
    }
}

/// The capabilities after the first `=` of a line.
fn caps_after_eq_exec(line: &str) -> (r: Vec<String>)
    ensures
        views(r@) == caps_after_eq(line@),
{
    let cs = chars_of(line);
    proof {
        lemma_find_char(cs@, '=', 0);
    }
    match find_char_exec(cs.as_slice(), '=', 0) {
        Some(eq) => {
            let n = cs.len();
            comma_items_exec(substring(line, eq + 1, n).as_str())
        },
        None => Vec::new(),
    }
}

/// Appends owned copies of `items` to `v`.
fn extend_strings(v: &mut Vec<String>, items: &Vec<String>)
    ensures
        views(final(v)@) == views(old(v)@) + views(items@),
{
    let mut i: usize = 0;
    while i < items.len()
        invariant
            i <= items@.len(),
            views(v@) == views(old(v)@) + views(items@).subrange(0, i as int),
        decreases items@.len() - i,
    {
        let ghost before = v@;
        v.push(items[i].clone());
        assert(views(v@) =~= views(before).push(items@[i as int]@));
        assert(views(items@).subrange(0, i + 1) =~= views(items@).subrange(0, i as int).push(
            items@[i as int]@,
        ));
        i = i + 1;
    }
    assert(views(items@).subrange(0, items@.len() as int) =~= views(items@));
}

/// The sections of `capsh` output, each once, with their capabilities.
pub struct CapSections {
    entries: Vec<(String, Vec<String>)>,
}

/// No two sections share a name.
pub open spec fn section_names_unique(s: Seq<(String, Vec<String>)>) -> bool {
    forall|i: int, j: int| 0 <= i < j < s.len() ==> s[i].0@ != s[j].0@
}

/// The index of the section named `k`.
pub open spec fn section_index(s: Seq<(String, Vec<String>)>, k: Seq<char>) -> Option<int> {
    if exists|i: int| 0 <= i < s.len() && s[i].0@ == k {
        Some(choose|i: int| 0 <= i < s.len() && s[i].0@ == k)
    } else {
        None
    }
}

/// The map a list of sections with unique names stands for.
pub open spec fn sections_map(s: Seq<(String, Vec<String>)>) -> Map<Seq<char>, Seq<Seq<char>>> {
    Map::new(
        |k: Seq<char>| section_index(s, k) is Some,
        |k: Seq<char>| views(s[section_index(s, k)->0].1@),
    )
}

proof fn lemma_section_index(s: Seq<(String, Vec<String>)>, i: int)
    requires
        section_names_unique(s),
        0 <= i < s.len(),
    ensures
        section_index(s, s[i].0@) == Some(i),
{
    let k = s[i].0@;
    assert(0 <= i < s.len() && s[i].0@ == k);
    let j = choose|j: int| 0 <= j < s.len() && s[j].0@ == k;
    if j < i {
        assert(s[j].0@ != s[i].0@);
    } else if i < j {
        assert(s[i].0@ != s[j].0@);
    }
}

/// With unique names, the map has one section per entry.
proof fn lemma_sections_len(s: Seq<(String, Vec<String>)>)
    requires
        section_names_unique(s),
    ensures
        sections_map(s).dom().finite(),
        sections_map(s).dom().len() == s.len(),
    decreases s.len(),
{
    let ks = Set::new(|k: Seq<char>| section_index(s, k) is Some);
    assert(sections_map(s).dom() =~= ks);
    if s.len() == 0 {
        assert(ks =~= Set::<Seq<char>>::empty());
    } else {
        let t = s.drop_last();
        assert(section_names_unique(t));
        lemma_sections_len(t);
        let kt = Set::new(|k: Seq<char>| section_index(t, k) is Some);
        assert(sections_map(t).dom() =~= kt);
        let last = s.last().0@;
        assert(!kt.contains(last)) by {
            if section_index(t, last) is Some {
                let k = section_index(t, last)->0;
                assert(s[k].0@ == last);
                assert(s[k].0@ != s[s.len() - 1].0@);
            }
        }
        assert(ks =~= kt.insert(last)) by {
            assert forall|n: Seq<char>| ks.contains(n) <==> kt.insert(last).contains(n) by {
                if section_index(s, n) is Some && n != last {
                    let k = section_index(s, n)->0;
                    assert(k < s.len() - 1);
                    assert(t[k].0@ == n);
                }
                if kt.contains(n) {
                    let k = section_index(t, n)->0;
                    assert(s[k].0@ == n);
                }
                if n == last {
                    assert(s[s.len() - 1].0@ == n);
                }
            }
        }
    }
}

impl View for CapSections {
    type V = Map<Seq<char>, Seq<Seq<char>>>;

    closed spec fn view(&self) -> Map<Seq<char>, Seq<Seq<char>>> {
        sections_map(self.entries@)
    }
}

impl CapSections {
    pub closed spec fn wf(&self) -> bool {
        section_names_unique(self.entries@)
    }

    fn new() -> (t: Self)
        ensures
            t.wf(),
            t@ == Map::<Seq<char>, Seq<Seq<char>>>::empty(),
    {
        let t = CapSections { entries: Vec::new() };
        assert(t@ =~= Map::<Seq<char>, Seq<Seq<char>>>::empty());
        t
    }

    fn insert(&mut self, name: String, caps: Vec<String>)
        requires
            old(self).wf(),
        ensures
            final(self).wf(),
            final(self)@ == old(self)@.insert(name@, views(caps@)),
    {
        let ghost before = self.entries@;
        let ghost key = name@;
        let ghost value = views(caps@);
        let mut i: usize = 0;
        while i < self.entries.len()
            invariant
                i <= self.entries@.len(),
                self.entries@ == before,
                before == old(self).entries@,
                section_names_unique(before),
                key == name@,
                value == views(caps@),
                forall|j: int| 0 <= j < i ==> self.entries@[j].0@ != key,
            decreases self.entries@.len() - i,
        {
            if same_text(self.entries[i].0.as_str(), name.as_str()) {
                self.entries.set(i, (name, caps));
                proof {
                    let s = self.entries@;
                    assert forall|j: int| 0 <= j < s.len() implies (#[trigger] s[j]).0@ == before[j].0@ by {}
                    assert(section_names_unique(s));
                    lemma_section_index(s, i as int);
                    assert forall|n: Seq<char>| n != key implies section_index(s, n) == section_index(
                        before,
                        n,
                    ) by {
                        if section_index(before, n) is Some {
                            let k = section_index(before, n)->0;
                            assert(s[k].0@ == n);
                            lemma_section_index(s, k);
                            lemma_section_index(before, k);
                        }
                        if section_index(s, n) is Some {
                            let k = section_index(s, n)->0;
                            assert(before[k].0@ == n);
                            lemma_section_index(before, k);
                        }
                    }
                    assert(sections_map(s) =~= sections_map(before).insert(key, value));
                }
                return;
            }
            i = i + 1;
        }
        self.entries.push((name, caps));
        proof {
            let s = self.entries@;
            let last = before.len() as int;
            assert(section_names_unique(s)) by {
                assert forall|a: int, b: int| 0 <= a < b < s.len() implies s[a].0@ != s[b].0@ by {
                    if b < last {
                        assert(s[a] == before[a] && s[b] == before[b]);
                    }
                }
            }
            lemma_section_index(s, last);
            assert forall|n: Seq<char>| n != key implies section_index(s, n) == section_index(
                before,
                n,
            ) by {
                if section_index(before, n) is Some {
                    let k = section_index(before, n)->0;
                    assert(s[k].0@ == n);
                    lemma_section_index(s, k);
                    lemma_section_index(before, k);
                }
                if section_index(s, n) is Some {
                    let k = section_index(s, n)->0;
                    assert(k != last);
                    assert(before[k].0@ == n);
                    lemma_section_index(before, k);
                }
            }
            assert(sections_map(s) =~= sections_map(before).insert(key, value));
        }
    }

    /// The sections in the order they first appeared, each with its capabilities.
    pub fn entries(&self) -> (r: &Vec<(String, Vec<String>)>)
        requires
            self.wf(),
        ensures
            section_names_unique(r@),
            sections_map(r@) == self@,
    {
        &self.entries
    }

    /// The capabilities of a section.
    pub fn get(&self, name: &str) -> (r: Option<&Vec<String>>)
        requires
            self.wf(),
        ensures
            match r {
                Some(v) => self@.contains_key(name@) && views(v@) == self@[name@],
                None => !self@.contains_key(name@),
            },
    {
        let mut i: usize = 0;
        while i < self.entries.len()
            invariant
                i <= self.entries@.len(),
                section_names_unique(self.entries@),
                forall|j: int| 0 <= j < i ==> self.entries@[j].0@ != name@,
            decreases self.entries@.len() - i,
        {
            if same_text(self.entries[i].0.as_str(), name) {
                proof {
                    lemma_section_index(self.entries@, i as int);
                }
                return Some(&self.entries[i].1);
            }
            i = i + 1;
        }
        None
    }

    /// The number of sections.
    pub fn len(&self) -> (n: usize)
        requires
            self.wf(),
        ensures
            n == self@.dom().len(),
    {
        proof {
            lemma_sections_len(self.entries@);
        }
        self.entries.len()
    }
}

/// Capability manager for LSM.
pub struct CapabilityManager {
    _lsm_manager: LsmManager,
}

impl CapabilityManager {
    /// The LSM manager this capability manager was made with.
    pub closed spec fn lsm_manager(&self) -> LsmManager {
        self._lsm_manager
    }

    /// A capability manager that holds `lsm_manager`.
    pub fn new(lsm_manager: LsmManager) -> (m: Self)
        ensures
            m.lsm_manager() == lsm_manager,
    {
        CapabilityManager { _lsm_manager: lsm_manager }
    }

    /// Whether a process has a capability, from its status text (`None` when
    /// the status could not be read, which grants nothing).
    pub fn has_capability(&self, status: Option<&str>, capability: u32) -> (r: Result<bool, String>)
        ensures
            r == Ok::<bool, String>(
                match status {
                    Some(s) => status_has_cap(s@, capability),
                    None => false,
                },
            ),
    {
        match status {
            None => Ok(false),
            Some(s) => {
                let ls = lines_of(s);
                let ghost lv = views(ls@);
                let mut i: usize = 0;
                assert(lv.subrange(0, lv.len() as int) =~= lv);
                while i < ls.len()
                    invariant
                        i <= ls@.len(),
                        lv == views(ls@),
                        lv == lines(s@),
                        status == Some(s),
                        first_cap_line(lv) == first_cap_line(lv.subrange(i as int, lv.len() as int)),
                    decreases ls@.len() - i,
                {
                    let ghost rest = lv.subrange(i as int, lv.len() as int);
                    assert(rest[0] == ls@[i as int]@);
                    assert(rest.drop_first() =~= lv.subrange(i + 1, lv.len() as int));
                    let lc = chars_of(ls[i].as_str());
                    if starts_with_exec(lc.as_slice(), chars_of("CapEff:").as_slice())
                        || starts_with_exec(lc.as_slice(), chars_of("CapPrm:").as_slice()) {
                        assert(is_cap_line(rest[0]));
                        assert(first_cap_line(rest) == Some(lv[i as int]));
                        let field = second_field_exec(ls[i].as_str());
                        assert(lv[i as int] == ls@[i as int]@);
                        assert(field@ == second_field(lv[i as int]));
                        assert(status_has_cap(s@, capability) == cap_bit_set(field@, capability));
                        let b = self.check_capability_bit(field.as_str(), capability);
                        assert(b == status_has_cap(s@, capability));
                        return Ok(b);
                    }
                    i = i + 1;
                }
                assert(lv.subrange(i as int, lv.len() as int) =~= Seq::<Seq<char>>::empty());
                Ok(false)
            },
        }
    }

    /// Whether the capability bit is set in a hexadecimal capability mask.
    pub fn check_capability_bit(&self, caps_str: &str, capability: u32) -> (b: bool)
        ensures
            b == cap_bit_set(caps_str@, capability),
    {
        if capability >= 40 {
            return false;
        }
        let t = trim_str(caps_str);
        match parse_hex_exec(chars_of(t.as_str()).as_slice()) {
            Some(v) => {
                let mask = 1u64 << capability;
                (v & mask) != 0
            },
            None => false,
        }
    }

    /// Whether `capsh --decode` lists a capability for a process (`Err` when it
    /// could not run): its name occurs in the output when `capsh` succeeded;
    /// never when it failed.
    pub fn check_capability_capsh(&self, capsh: Result<CommandOutput, String>, capability: u32) -> (r:
        Result<bool, String>)
        ensures
            match capsh {
                Ok(o) => r == Ok::<bool, String>(
                    o.success && contains_text(o.stdout@, cap_name(capability)),
                ),
                Err(e) => r is Err && r->Err_0@ == "Failed to check capability with capsh: "@ + e@,
            },
    {
        match capsh {
            Err(e) => Err(concat_str("Failed to check capability with capsh: ", e.as_str())),
            Ok(o) => {
                if !o.success {
                    return Ok(false);
                }
                let name = self.capability_to_name(capability);
                Ok(contains_exec(
                    chars_of(o.stdout.as_str()).as_slice(),
                    chars_of(name.as_str()).as_slice(),
                ))
            },
        }
    }

    /// The name of a capability number.
    pub fn capability_to_name(&self, capability: u32) -> (r: String)
        ensures
            r@ == cap_name(capability),
    {
        match capability {
            0 => String::from_str("CAP_CHOWN"),
            1 => String::from_str("CAP_DAC_OVERRIDE"),
            2 => String::from_str("CAP_DAC_READ_SEARCH"),
            3 => String::from_str("CAP_FOWNER"),
            4 => String::from_str("CAP_FSETID"),
            5 => String::from_str("CAP_KILL"),
            6 => String::from_str("CAP_SETGID"),
            7 => String::from_str("CAP_SETUID"),
            8 => String::from_str("CAP_SETPCAP"),
            9 => String::from_str("CAP_LINUX_IMMUTABLE"),
            10 => String::from_str("CAP_NET_BIND_SERVICE"),
            11 => String::from_str("CAP_NET_BROADCAST"),
            12 => String::from_str("CAP_NET_ADMIN"),
            13 => String::from_str("CAP_NET_RAW"),
            14 => String::from_str("CAP_IPC_LOCK"),
            15 => String::from_str("CAP_IPC_OWNER"),
            16 => String::from_str("CAP_SYS_MODULE"),
            17 => String::from_str("CAP_SYS_RAWIO"),
            18 => String::from_str("CAP_SYS_CHROOT"),
            19 => String::from_str("CAP_SYS_PTRACE"),
            20 => String::from_str("CAP_SYS_PACCT"),
            21 => String::from_str("CAP_SYS_ADMIN"),
            22 => String::from_str("CAP_SYS_BOOT"),
            23 => String::from_str("CAP_SYS_NICE"),
            24 => String::from_str("CAP_SYS_RESOURCE"),
            25 => String::from_str("CAP_SYS_TIME"),
            26 => String::from_str("CAP_SYS_TTY_CONFIG"),
            27 => String::from_str("CAP_MKNOD"),
            28 => String::from_str("CAP_LEASE"),
            29 => String::from_str("CAP_AUDIT_WRITE"),
            30 => String::from_str("CAP_AUDIT_CONTROL"),
            31 => String::from_str("CAP_SETFCAP"),
            32 => String::from_str("CAP_MAC_OVERRIDE"),
            33 => String::from_str("CAP_MAC_ADMIN"),
            34 => String::from_str("CAP_SYSLOG"),
            35 => String::from_str("CAP_WAKE_ALARM"),
            36 => String::from_str("CAP_BLOCK_SUSPEND"),
            37 => String::from_str("CAP_AUDIT_READ"),
            _ => concat_str("CAP_", decimal_string(capability as u64).as_str()),
        }
    }

    /// The names of the capabilities (0 to 39) that a process status grants, in order.
    pub fn get_capabilities(&self, status: Option<&str>) -> (r: Result<Vec<String>, String>)
        ensures
            r is Ok,
            views(r->Ok_0@) == match status {
                Some(s) => granted_caps(s@, 40),
                None => Seq::<Seq<char>>::empty(),
            },
    {
        let mut capabilities: Vec<String> = Vec::new();
        let mut cap: u32 = 0;
        while cap < 40
            invariant
                cap <= 40,
                views(capabilities@) == match status {
                    Some(s) => granted_caps(s@, cap),
                    None => Seq::<Seq<char>>::empty(),
                },
            decreases 40 - cap,
        {
            let has = self.has_capability(status, cap);
            match has {
                Ok(true) => {
                    let ghost before = capabilities@;
                    let name = self.capability_to_name(cap);
                    capabilities.push(name);
                    assert(views(capabilities@) =~= views(before).push(cap_name(cap)));
                },
                _ => {},
            }
            cap = cap + 1;
        }
        Ok(capabilities)
    }


    /// The bounding set of a process from `capsh --decode` (`Err` when it could
    /// not run): the capabilities of the first line mentioning `Bounding set`,
    /// none when `capsh` failed.
    pub fn get_bounding_set_capsh(&self, capsh: Result<CommandOutput, String>) -> (r: Result<
        Vec<String>,
        String,
    >)
        ensures
            match capsh {
                Ok(o) => r is Ok && views(r->Ok_0@) == if o.success {
                    bounding_set(lines(o.stdout@))
                } else {
                    Seq::<Seq<char>>::empty()
                },
                Err(e) => r is Err && r->Err_0@ == "Failed to get bounding set with capsh: "@ + e@,
            },
    {
        match capsh {
            Err(e) => Err(concat_str("Failed to get bounding set with capsh: ", e.as_str())),
            Ok(o) => {
                if !o.success {
                    return Ok(Vec::new());
                }
                let ls = lines_of(o.stdout.as_str());
                let ghost lv = views(ls@);
                let mut i: usize = 0;
                assert(lv.subrange(0, lv.len() as int) =~= lv);
                while i < ls.len()
                    invariant
                        i <= ls@.len(),
                        lv == views(ls@),
                        lv == lines(o.stdout@),
                        o.success,
                        capsh == Ok::<CommandOutput, String>(o),
                        bounding_set(lv) == bounding_set(lv.subrange(i as int, lv.len() as int)),
                    decreases ls@.len() - i,
                {
                    let ghost rest = lv.subrange(i as int, lv.len() as int);
                    assert(rest[0] == ls@[i as int]@);
                    assert(rest.drop_first() =~= lv.subrange(i + 1, lv.len() as int));
                    if contains_exec(
                        chars_of(ls[i].as_str()).as_slice(),
                        chars_of("Bounding set").as_slice(),
                    ) {
                        return Ok(caps_after_eq_exec(ls[i].as_str()));
                    }
                    i = i + 1;
                }
                assert(lv.subrange(i as int, lv.len() as int) =~= Seq::<Seq<char>>::empty());
                Ok(Vec::new())
            },
        }
    }

    /// Every capability section of `capsh --decode` output (`Err` when it could
    /// not run); no sections when `capsh` failed.
    pub fn get_full_capabilities_capsh(&self, capsh: Result<CommandOutput, String>) -> (r: Result<
        CapSections,
        String,
    >)
        ensures
            match capsh {
                Ok(o) => r is Ok && r->Ok_0.wf() && r->Ok_0@ == if o.success {
                    capsh_sections(lines(o.stdout@))
                } else {
                    Map::<Seq<char>, Seq<Seq<char>>>::empty()
                },
                Err(e) => r is Err && r->Err_0@ == "Failed to get capabilities with capsh: "@ + e@,
            },
    {
        match capsh {
            Err(e) => Err(concat_str("Failed to get capabilities with capsh: ", e.as_str())),
            Ok(o) => {
                let mut result = CapSections::new();
                if !o.success {
                    return Ok(result);
                }
                let ls = lines_of(o.stdout.as_str());
                let ghost lv = views(ls@);
                let mut section = String::new();
                let mut caps: Vec<String> = Vec::new();
                let mut i: usize = 0;
                assert(views(caps@) =~= Seq::<Seq<char>>::empty());
                assert(lv.subrange(0, 0) =~= Seq::<Seq<char>>::empty());
                while i < ls.len()
                    invariant
                        i <= ls@.len(),
                        lv == views(ls@),
                        result.wf(),
                        capsh_reading(lv.subrange(0, i as int)) == (CapshReading {
                            sections: result@,
                            section: section@,
                            caps: views(caps@),
                        }),
                    decreases ls@.len() - i,
                {
                    assert(lv.subrange(0, i + 1).drop_last() =~= lv.subrange(0, i as int));
                    assert(lv[i as int] == ls@[i as int]@);
                    let trimmed = trim_str(ls[i].as_str());
                    let tc = chars_of(trimmed.as_str());
                    if tc.len() == 0 {
                    } else if starts_with_exec(tc.as_slice(), chars_of("Current:").as_slice())
                        || starts_with_exec(tc.as_slice(), chars_of("Bounding set:").as_slice())
                        || starts_with_exec(tc.as_slice(), chars_of("Ambient set:").as_slice())
                        || starts_with_exec(tc.as_slice(), chars_of("Securebits:").as_slice()) {
                        if section.unicode_len() > 0 {
                            let old_caps = caps;
                            caps = Vec::new();
                            result.insert(section, old_caps);
                            assert(views(caps@) =~= Seq::<Seq<char>>::empty());
                        }
                        section = trimmed.clone();
                        let found = caps_after_eq_exec(trimmed.as_str());
                        extend_strings(&mut caps, &found);
                    } else if section.unicode_len() > 0 {
                        let ws = split_words(trimmed.as_str());
                        let ghost wv = views(ws@);
                        let ghost start = views(caps@);
                        let mut k: usize = 0;
                        while k < ws.len()
                            invariant
                                k <= ws@.len(),
                                wv == views(ws@),
                                views(caps@) == start + cap_words(wv.subrange(0, k as int)),
                            decreases ws@.len() - k,
                        {
                            assert(wv.subrange(0, k + 1).drop_last() =~= wv.subrange(0, k as int));
                            assert(wv.subrange(0, k + 1).last() == ws@[k as int]@);
                            let wc = chars_of(ws[k].as_str());
                            if wc.len() > 0 && starts_with_exec(
                                wc.as_slice(),
                                chars_of("cap_").as_slice(),
                            ) {
                                let ghost before = caps@;
                                caps.push(ws[k].clone());
                                assert(views(caps@) =~= views(before).push(ws@[k as int]@));
                            }
                            k = k + 1;
                        }
                        assert(wv.subrange(0, k as int) =~= wv);
                    }
                    i = i + 1;
                }
                assert(lv.subrange(0, i as int) =~= lv);
                if section.unicode_len() > 0 {
                    result.insert(section, caps);
                }
                Ok(result)
            },
        }
    }

    /// Dropping a capability needs a privilege this manager does not take: always an error.
    pub fn drop_capability(&self, _pid: u32, _capability: u32) -> (r: Result<bool, String>)
        ensures
            r is Err,
            r->Err_0@ == "Dropping capabilities requires CAP_SETPCAP privilege"@,
    {
        Err(String::from_str("Dropping capabilities requires CAP_SETPCAP privilege"))
    }
}

/// The second `:`-separated field of a line.
fn second_field_exec(line: &str) -> (r: String)
    ensures
        r@ == second_field(line@),
{
    let cs = chars_of(line);
    proof {
        lemma_find_char(cs@, ':', 0);
    }
    match find_char_exec(cs.as_slice(), ':', 0) {
        Some(p) => {
            let n = cs.len();
            let rest = substring(line, p + 1, n);
            let rc = chars_of(rest.as_str());
            proof {
                lemma_find_char(rc@, ':', 0);
            }
            match find_char_exec(rc.as_slice(), ':', 0) {
                Some(q) => substring(rest.as_str(), 0, q),
                None => rest,
            }
        },
        None => String::new(),
    }
}

/// The rule that decides a hook call matches it, and no matching rule for the
/// hook has a higher priority; when none is chosen, no rule for the hook matches.
pub proof fn law_best_rule_has_highest_priority(
    rules: Seq<RuleView>,
    hook: LsmHookType,
    ctx: Map<Seq<char>, Seq<char>>,
)
    ensures
        best_rule(rules, hook, ctx) matches Some(i) ==> 0 <= i < rules.len() && rules[i].hook_type
            == hook && rule_matches(rules[i], ctx) && forall|j: int|
            0 <= j < rules.len() && rules[j].hook_type == hook && rule_matches(rules[j], ctx)
                ==> rules[j].priority <= rules[i].priority,
        best_rule(rules, hook, ctx) is None ==> forall|j: int|
            0 <= j < rules.len() ==> !(rules[j].hook_type == hook && rule_matches(rules[j], ctx)),
    decreases rules.len(),
{
    if rules.len() > 0 {
        let t = rules.drop_last();
        law_best_rule_has_highest_priority(t, hook, ctx);
        assert forall|j: int| 0 <= j < t.len() implies t[j] == rules[j] by {}
    }
}

/// Adding a rule under a new name and then removing that name gives back the rules.
pub proof fn law_remove_undoes_add(rules: Seq<RuleView>, rule: RuleView)
    requires
        first_named(rules, rule.name) is None,
    ensures
        first_named(rules.push(rule), rule.name) == Some(rules.len() as int),
        rules.push(rule).remove(rules.len() as int) == rules,
{
    assert(rules.push(rule).drop_last() =~= rules);
    assert(rules.push(rule).remove(rules.len() as int) =~= rules);
}

} // verus!
