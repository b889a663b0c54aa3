//! Scheduling hints: the strategies, the adjacency of CPU cores, and the
//! detected CPU topology.
//!
//! The entropy-driven optimizer works in floating point and is run by the caller.
use vstd::prelude::*;

verus! {

/// Maximum number of CPU cores supported.
pub const MAX_CORES: usize = 128;

/// Maximum number of processes/threads to optimize.
pub const MAX_PROCESSES: usize = 1024;

/// Scheduler optimization strategy.
#[derive(Clone, Copy, Debug, PartialEq, Eq, Structural)]
pub enum SchedulerStrategy {
    /// Greedy algorithm: assign high-entropy processes to least-loaded cores.
    Greedy,
    /// Round-robin: distribute high-entropy processes across cores.
    RoundRobin,
    /// Balanced: mix of greedy and round-robin.
    Balanced,
}

impl Default for SchedulerStrategy {
    fn default() -> (s: Self)
        ensures
            s == SchedulerStrategy::Greedy,
    {
        SchedulerStrategy::Greedy
    }
}

/// The rows of a matrix of flags.
pub open spec fn rows(m: Seq<Vec<bool>>) -> Seq<Seq<bool>> {
    m.map_values(|r: Vec<bool>| r@)
}

/// An `n` by `n` matrix whose entry `(i, j)` is `f(i, j)`.
pub open spec fn is_matrix(m: Seq<Seq<bool>>, n: int, f: spec_fn(int, int) -> bool) -> bool {
    &&& m.len() == n
    &&& forall|i: int| 0 <= i < n ==> (#[trigger] m[i]).len() == n
    &&& forall|i: int, j: int| 0 <= i < n && 0 <= j < n ==> m[i][j] == f(i, j)
}

/// Neighbours in a line of cores: the same core or the next one on either side.
pub open spec fn linear_adjacent(i: int, j: int) -> bool {
    i == j || i == j + 1 || j == i + 1
}

/// Core adjacency information: which cores share a cache, a NUMA node, etc.
#[derive(Clone, Debug)]
pub struct CoreAdjacency {
    /// Number of cores.
    pub core_count: usize,
    /// Adjacency matrix: adjacency[i][j] is true if core i and j are adjacent.
    pub adjacency: Vec<Vec<bool>>,
}

/// An `n` by `n` matrix whose entry `(i, j)` is `f(i, j)`.
fn build_matrix(n: usize, Ghost(f): Ghost<spec_fn(int, int) -> bool>, kind: u8) -> (m: Vec<Vec<bool>>)
    requires
        kind == 0 ==> f == (|i: int, j: int| linear_adjacent(i, j)),
        kind == 1 ==> f == (|i: int, j: int| true),
        kind == 2 ==> f == (|i: int, j: int| i == j),
        kind <= 2,
    ensures
        is_matrix(rows(m@), n as int, f),
{
    let mut m: Vec<Vec<bool>> = Vec::new();
    let mut i: usize = 0;
    while i < n
        invariant
            i <= n,
            kind == 0 ==> f == (|i: int, j: int| linear_adjacent(i, j)),
            kind == 1 ==> f == (|i: int, j: int| true),
            kind == 2 ==> f == (|i: int, j: int| i == j),
            kind <= 2,
            m@.len() == i,
            forall|a: int| 0 <= a < i ==> (#[trigger] m@[a])@.len() == n,
            forall|a: int, b: int| 0 <= a < i && 0 <= b < n ==> m@[a]@[b] == f(a, b),
        decreases n - i,
    {
        let mut row: Vec<bool> = Vec::new();
        let mut j: usize = 0;
        while j < n
            invariant
                j <= n,
                i < n,
                kind == 0 ==> f == (|i: int, j: int| linear_adjacent(i, j)),
                kind == 1 ==> f == (|i: int, j: int| true),
                kind == 2 ==> f == (|i: int, j: int| i == j),
                kind <= 2,
                row@.len() == j,
                forall|b: int| 0 <= b < j ==> row@[b] == f(i as int, b),
            decreases n - j,
        {
            let v = if kind == 0 {
                i == j || i == j + 1 || j == i + 1
            } else if kind == 1 {
                true
            } else {
                i == j
            };
            row.push(v);
            j = j + 1;
        }
        m.push(row);
        i = i + 1;
    }
    m
}

impl CoreAdjacency {
    /// Cores in a line: each is adjacent to itself and its neighbours.
    pub fn linear(core_count: usize) -> (a: Self)
        ensures
            a.core_count == core_count,
            is_matrix(rows(a.adjacency@), core_count as int, |i: int, j: int| linear_adjacent(i, j)),
    {
        CoreAdjacency {
            core_count,
            adjacency: build_matrix(core_count, Ghost(|i: int, j: int| linear_adjacent(i, j)), 0),
        }
    }

    /// Every core adjacent to every core.
    pub fn fully_connected(core_count: usize) -> (a: Self)
        ensures
            a.core_count == core_count,
            is_matrix(rows(a.adjacency@), core_count as int, |i: int, j: int| true),
    {
        CoreAdjacency {
            core_count,
            adjacency: build_matrix(core_count, Ghost(|i: int, j: int| true), 1),
        }
    }

    /// Each core adjacent to itself only.
    pub fn isolated(core_count: usize) -> (a: Self)
        ensures
            a.core_count == core_count,
            is_matrix(rows(a.adjacency@), core_count as int, |i: int, j: int| i == j),
    {
        CoreAdjacency {
            core_count,
            adjacency: build_matrix(core_count, Ghost(|i: int, j: int| i == j), 2),
        }
    }
}

impl Default for CoreAdjacency {
    /// Four cores in a line.
    fn default() -> (a: Self)
        ensures
            a.core_count == 4,
            is_matrix(rows(a.adjacency@), 4, |i: int, j: int| linear_adjacent(i, j)),
    {
        CoreAdjacency::linear(4)
    }
}

/// `num_cpus::get()`: the number of logical CPUs available to this process;
/// its documentation promises at least 1.
#[verifier::external_body]
fn available_cpus() -> (n: usize)
    ensures
        n >= 1,
{
    num_cpus::get()
}

/// Detected CPU topology.
#[derive(Clone, Debug)]
pub struct CpuTopology {
    /// Number of CPU cores.
    pub core_count: usize,
    /// Number of NUMA nodes.
    pub numa_nodes: usize,
    /// Cores per NUMA node.
    pub cores_per_node: Vec<usize>,
    /// NUMA node for each core.
    pub core_to_numa: Vec<usize>,
}

impl CpuTopology {
    /// The topology of this machine as one NUMA node holding every available CPU.
    pub fn detect() -> (t: Self)
        ensures
            t.core_count >= 1,
            t.numa_nodes == 1,
            t.cores_per_node@ == seq![t.core_count],
            t.core_to_numa@.len() == t.core_count,
            forall|i: int| 0 <= i < t.core_count ==> t.core_to_numa@[i] == 0,
    {
        let core_count = available_cpus();
        CpuTopology::single_node(core_count)
    }

    /// One NUMA node holding `core_count` cores.
    pub fn single_node(core_count: usize) -> (t: Self)
        ensures
            t.core_count == core_count,
            t.numa_nodes == 1,
            t.cores_per_node@ == seq![core_count],
            t.core_to_numa@.len() == core_count,
            forall|i: int| 0 <= i < core_count ==> t.core_to_numa@[i] == 0,
    {
        let mut core_to_numa: Vec<usize> = Vec::new();
        let mut i: usize = 0;
        while i < core_count
            invariant
                i <= core_count,
                core_to_numa@.len() == i,
                forall|k: int| 0 <= k < i ==> core_to_numa@[k] == 0,
            decreases core_count - i,
        {
            core_to_numa.push(0);
            i = i + 1;
        }
        let t = CpuTopology { core_count, numa_nodes: 1, cores_per_node: vec![core_count], core_to_numa };
        assert(t.cores_per_node@ =~= seq![core_count]);
        t
    }
}

} // verus!
