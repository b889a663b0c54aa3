//! cgroup v2 controllers, the names and limit texts of the clamping cgroups,
//! and the resource usage history kept per process.
//!
//! Clamping a process works on floating-point limits and the cgroup file
//! system, and is the caller's. CPU usage figures are IEEE 754 doubles held as
//! their bit patterns.
use vstd::prelude::*;
use crate::text::{concat_str, decimal, decimal_string};

verus! {

/// Cgroup v2 controller types.
#[derive(Debug, Clone, Copy, PartialEq, Eq, Structural)]
pub enum CgroupController {
    Cpu,
    Memory,
    /// Both controllers.
    CpuMemory,
}

/// The name of a controller, as it is displayed and written to `cgroup.subtree_control`.
pub open spec fn controller_name(c: CgroupController) -> Seq<char> {
    match c {
        CgroupController::Cpu => "cpu"@,
        CgroupController::Memory => "memory"@,
        CgroupController::CpuMemory => "cpu,memory"@,
    }
}

impl CgroupController {
    /// The name of the controller, as it is displayed.
    pub fn as_str(&self) -> (s: &'static str)
        ensures
            s@ == controller_name(*self),
    {
        match self {
            CgroupController::Cpu => "cpu",
            CgroupController::Memory => "memory",
            CgroupController::CpuMemory => "cpu,memory",
        }
    }
}

/// The name of the cgroup that clamps a process: `ccze_clamp_<pid>_<controller>`.
pub open spec fn cgroup_name(pid: u32, c: CgroupController) -> Seq<char> {
    "ccze_clamp_"@ + decimal(pid as nat) + "_"@ + controller_name(c)
}

/// The name of the cgroup, under the cgroup root, that clamps a process.
pub fn cgroup_dir_name(pid: u32, controller: CgroupController) -> (r: String)
    ensures
        r@ == cgroup_name(pid, controller),
{
    concat_str(
        &concat_str(&concat_str("ccze_clamp_", decimal_string(pid as u64).as_str()), "_"),
        controller.as_str(),
    )
}

/// What `memory.max` is set to for a limit in bytes: `max` for no limit (0),
/// else the number.
pub fn memory_max_text(max_bytes: u64) -> (r: String)
    ensures
        r@ == if max_bytes == 0 {
            "max"@
        } else {
            decimal(max_bytes as nat)
        },
{
    if max_bytes == 0 {
        String::from_str("max")
    } else {
        decimal_string(max_bytes)
    }
}

/// What `cpu.max` is set to for a quota per 100000 microseconds: `max 100000`
/// for no limit, else the quota and the period.
pub fn cpu_max_text(quota: Option<u64>) -> (r: String)
    ensures
        r@ == match quota {
            None => "max 100000"@,
            Some(q) => decimal(q as nat) + " 100000"@,
        },
{
    match quota {
        None => String::from_str("max 100000"),
        Some(q) => concat_str(decimal_string(q).as_str(), " 100000"),
    }
}

/// A sample of a process's resource usage.
#[derive(Debug, Clone, Copy, PartialEq, Eq, Structural)]
pub struct ResourceUsage {
    /// CPU percentage, as the bits of an IEEE 754 double.
    pub cpu_usage_bits: u64,
    /// Bytes.
    pub memory_usage: u64,
    /// Resident set size.
    pub memory_rss: u64,
    /// Seconds.
    pub timestamp: u64,
}

/// How many samples are kept per process.
pub const HISTORY_LIMIT: usize = 100;

/// The samples kept once `u` is recorded after `s`: the newest hundred.
pub open spec fn keep_recent(s: Seq<ResourceUsage>, u: ResourceUsage) -> Seq<ResourceUsage> {
    let t = s.push(u);
    if t.len() > 100 {
        t.drop_first()
    } else {
        t
    }
}

/// The usage history of processes: for each the samples recorded, oldest
/// first, at most a hundred.
#[derive(Debug)]
pub struct UsageHistory {
    entries: Vec<(u32, Vec<ResourceUsage>)>,
}

/// The position of a process's samples.
pub open spec fn pid_index(s: Seq<(u32, Vec<ResourceUsage>)>, pid: u32) -> Option<int> {
    if exists|i: int| 0 <= i < s.len() && s[i].0 == pid {
        Some(choose|i: int| 0 <= i < s.len() && s[i].0 == pid)
    } else {
        None
    }
}

proof fn lemma_pid_index(s: Seq<(u32, Vec<ResourceUsage>)>, i: int)
    requires
        forall|a: int, b: int| 0 <= a < b < s.len() ==> s[a].0 != s[b].0,
        0 <= i < s.len(),
    ensures
        pid_index(s, s[i].0) == Some(i),
{
    let k = s[i].0;
    assert(0 <= i < s.len() && s[i].0 == k);
    let j = choose|j: int| 0 <= j < s.len() && s[j].0 == k;
    if j < i {
        assert(s[j].0 != s[i].0);
    } else if i < j {
        assert(s[i].0 != s[j].0);
    }
}

impl UsageHistory {
    /// The samples of a process, oldest first (none when nothing was recorded).
    pub closed spec fn samples(&self, pid: u32) -> Seq<ResourceUsage> {
        match pid_index(self.entries@, pid) {
            Some(i) => self.entries@[i].1@,
            None => Seq::empty(),
        }
    }

    /// Each process has one entry of at most a hundred samples.
    pub closed spec fn wf(&self) -> bool {
        &&& forall|a: int, b: int|
            0 <= a < b < self.entries@.len() ==> self.entries@[a].0 != self.entries@[b].0
        &&& forall|a: int| 0 <= a < self.entries@.len() ==> (#[trigger] self.entries@[a]).1@.len() <= 100
    }

    /// An empty history.
    pub fn new() -> (h: Self)
        ensures
            h.wf(),
            forall|pid: u32| h.samples(pid).len() == 0,
    {
        UsageHistory { entries: Vec::new() }
    }

    /// Records a sample of a process, dropping its oldest beyond a hundred.
    pub fn record_usage(&mut self, pid: u32, usage: ResourceUsage)
        requires
            old(self).wf(),
        ensures
            final(self).wf(),
            final(self).samples(pid) == keep_recent(old(self).samples(pid), usage),
            forall|other: u32| other != pid ==> final(self).samples(other) == old(self).samples(other),
    {
        let ghost before = self.entries@;
        let mut i: usize = 0;
        while i < self.entries.len()
            invariant
                i <= self.entries@.len(),
                self.entries@ == before,
                before == old(self).entries@,
                old(self).wf(),
                forall|j: int| 0 <= j < i ==> self.entries@[j].0 != pid,
            decreases self.entries@.len() - i,
        {
            if self.entries[i].0 == pid {
                let mut list: Vec<ResourceUsage> = Vec::new();
                let ghost old_list = self.entries@[i as int].1@;
                let src = &self.entries[i].1;
                let mut k: usize = if src.len() >= 100 {
                    1
                } else {
                    0
                };
                let start = k;
                while k < src.len()
                    invariant
                        start <= k <= src@.len(),
                        src@ == old_list,
                        list@ == old_list.subrange(start as int, k as int),
                    decreases src@.len() - k,
                {
                    list.push(src[k]);
                    assert(list@ =~= old_list.subrange(start as int, k + 1));
                    k = k + 1;
                }
                list.push(usage);
                proof {
                    assert(list@ =~= keep_recent(old_list, usage));
                    lemma_pid_index(before, i as int);
                }
                self.entries.set(i, (pid, list));
                proof {
                    let s = self.entries@;
                    assert forall|a: int, b: int| 0 <= a < b < s.len() implies s[a].0 != s[b].0 by {
                        assert(s[a].0 == before[a].0 && s[b].0 == before[b].0);
                    }
                    lemma_pid_index(s, i as int);
                    assert forall|other: u32| other != pid implies pid_index(s, other) == pid_index(before, other) by {
                        if pid_index(before, other) is Some {
                            let k = pid_index(before, other)->0;
                            assert(s[k].0 == other);
                            lemma_pid_index(s, k);
                            lemma_pid_index(before, k);
                        }
                        if pid_index(s, other) is Some {
                            let k = pid_index(s, other)->0;
                            assert(before[k].0 == other);
                            lemma_pid_index(before, k);
                        }
                    }
                    assert forall|other: u32| other != pid implies self.samples(other) == old(self).samples(other) by {
                        if pid_index(s, other) is Some {
                            let k = pid_index(s, other)->0;
                            assert(k != i);
                        }
                    }
                }
                return;
            }
            i = i + 1;
        }
        let mut list: Vec<ResourceUsage> = Vec::new();
        list.push(usage);
        self.entries.push((pid, list));
        proof {
            let s = self.entries@;
            let last = before.len() as int;
            assert(pid_index(before, pid) is None);
            assert(list@ =~= keep_recent(Seq::<ResourceUsage>::empty(), usage));
            assert forall|a: int, b: int| 0 <= a < b < s.len() implies s[a].0 != s[b].0 by {
                if b < last {
                    assert(s[a] == before[a] && s[b] == before[b]);
                }
            }
            lemma_pid_index(s, last);
            assert forall|other: u32| other != pid implies pid_index(s, other) == pid_index(before, other) by {
                if pid_index(before, other) is Some {
                    let k = pid_index(before, other)->0;
                    assert(s[k].0 == other);
                    lemma_pid_index(s, k);
                    lemma_pid_index(before, k);
                }
                if pid_index(s, other) is Some {
                    let k = pid_index(s, other)->0;
                    assert(k != last);
                    assert(before[k].0 == other);
                    lemma_pid_index(before, k);
                }
            }
            assert forall|a: int| 0 <= a < s.len() implies (#[trigger] s[a]).1@.len() <= 100 by {
                if a < last {
                    assert(s[a] == before[a]);
                }
            }
        }
    }

    /// The samples of a process, oldest first.
    pub fn get_usage_history(&self, pid: u32) -> (r: Vec<ResourceUsage>)
        requires
            self.wf(),
        ensures
            r@ == self.samples(pid),
    {
        let mut i: usize = 0;
        while i < self.entries.len()
            invariant
                i <= self.entries@.len(),
                self.wf(),
                forall|j: int| 0 <= j < i ==> self.entries@[j].0 != pid,
            decreases self.entries@.len() - i,
        {
            if self.entries[i].0 == pid {
                proof {
                    lemma_pid_index(self.entries@, i as int);
                }
                return self.entries[i].1.clone();
            }
            i = i + 1;
        }
        Vec::new()
    }
}

/// The history keeps the newest hundred samples: recording never leaves more
/// than a hundred, and the sample just recorded is the newest.
pub proof fn law_history_keeps_newest(s: Seq<ResourceUsage>, u: ResourceUsage)
    requires
        s.len() <= 100,
    ensures
        keep_recent(s, u).len() <= 100,
        keep_recent(s, u).last() == u,
        s.len() < 100 ==> keep_recent(s, u) == s.push(u),
{
}

} // verus!
