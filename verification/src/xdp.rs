//! XDP filters: per-interface sets of block targets, their state, and the
//! shield that holds one filter per interface.
//!
//! Compiling and attaching eBPF programs is the caller's; entropy thresholds
//! are floating point and belong to the caller's configuration.
use vstd::prelude::*;
use crate::clock::unix_now_secs;
use crate::parser::same_text;
use crate::text::concat_str;

verus! {

/// XDP filter state.
#[derive(Debug, Clone)]
pub enum XdpState {
    /// No XDP filter loaded
    Inactive,
    /// XDP filter loaded and active
    Active,
    /// XDP filter loaded but in error state
    Error(String),
}

/// What a filter state says.
pub enum StateView {
    Inactive,
    Active,
    Error(Seq<char>),
}

impl View for XdpState {
    type V = StateView;

    open spec fn view(&self) -> StateView {
        match self {
            XdpState::Inactive => StateView::Inactive,
            XdpState::Active => StateView::Active,
            XdpState::Error(e) => StateView::Error(e@),
        }
    }
}

impl XdpState {
    /// Whether the filter is loaded and active.
    pub fn is_active(&self) -> (b: bool)
        ensures
            b == (*self is Active),
    {
        match self {
            XdpState::Active => true,
            _ => false,
        }
    }

    /// A copy of this state.
    pub fn duplicate(&self) -> (s: Self)
        ensures
            s@ == self@,
    {
        match self {
            XdpState::Inactive => XdpState::Inactive,
            XdpState::Active => XdpState::Active,
            XdpState::Error(e) => XdpState::Error(e.clone()),
        }
    }
}

/// An IP address: IPv4 as its 32 bits, IPv6 as its 128 bits, most significant first.
#[derive(Debug, Clone, Copy, PartialEq, Eq, Hash, Structural)]
pub enum IpAddress {
    V4(u32),
    V6(u128),
}

/// A socket address: an IP address and a port, and for IPv6 the flow
/// information and scope id.
#[derive(Debug, Clone, Copy, PartialEq, Eq, Hash, Structural)]
pub enum SocketAddress {
    V4 { ip: u32, port: u16 },
    V6 { ip: u128, port: u16, flowinfo: u32, scope_id: u32 },
}

/// Offending entity to be dropped by XDP.
#[derive(Debug, Clone)]
pub enum BlockTarget {
    /// IP address to block
    Ip(IpAddress),
    /// IP range (CIDR) to block
    IpRange(String),
    /// Specific port on an IP
    IpPort(SocketAddress),
    /// MAC address to block
    Mac([u8; 6]),
    /// Payload pattern to match (simplified representation)
    PayloadPattern(Vec<u8>),
}

/// What a block target names.
pub enum TargetView {
    Ip(IpAddress),
    IpRange(Seq<char>),
    IpPort(SocketAddress),
    Mac(Seq<u8>),
    PayloadPattern(Seq<u8>),
}

impl View for BlockTarget {
    type V = TargetView;

    open spec fn view(&self) -> TargetView {
        match self {
            BlockTarget::Ip(ip) => TargetView::Ip(*ip),
            BlockTarget::IpRange(r) => TargetView::IpRange(r@),
            BlockTarget::IpPort(a) => TargetView::IpPort(*a),
            BlockTarget::Mac(m) => TargetView::Mac(m@),
            BlockTarget::PayloadPattern(p) => TargetView::PayloadPattern(p@),
        }
    }
}

/// Whether two byte sequences are equal.
fn same_bytes(a: &[u8], b: &[u8]) -> (r: bool)
    ensures
        r == (a@ == b@),
{
    if a.len() != b.len() {
        return false;
    }
    let mut i: usize = 0;
    while i < a.len()
        invariant
            i <= a@.len(),
            a@.len() == b@.len(),
            forall|j: int| 0 <= j < i ==> a@[j] == b@[j],
        decreases a@.len() - i,
    {
        if a[i] != b[i] {
            return false;
        }
        i = i + 1;
    }
    assert(a@ =~= b@);
    true
}

impl BlockTarget {
    /// Whether two targets name the same entity.
    pub fn same_as(&self, other: &BlockTarget) -> (r: bool)
        ensures
            r == (self@ == other@),
    {
        match (self, other) {
            (BlockTarget::Ip(a), BlockTarget::Ip(b)) => *a == *b,
            (BlockTarget::IpRange(a), BlockTarget::IpRange(b)) => same_text(a.as_str(), b.as_str()),
            (BlockTarget::IpPort(a), BlockTarget::IpPort(b)) => *a == *b,
            (BlockTarget::Mac(a), BlockTarget::Mac(b)) => same_bytes(a, b),
            (BlockTarget::PayloadPattern(a), BlockTarget::PayloadPattern(b)) => same_bytes(
                a.as_slice(),
                b.as_slice(),
            ),
            _ => false,
        }
    }

    /// A copy of this target.
    pub fn duplicate(&self) -> (t: Self)
        ensures
            t@ == self@,
    {
        match self {
            BlockTarget::Ip(ip) => BlockTarget::Ip(*ip),
            BlockTarget::IpRange(r) => BlockTarget::IpRange(r.clone()),
            BlockTarget::IpPort(a) => BlockTarget::IpPort(*a),
            BlockTarget::Mac(m) => BlockTarget::Mac(*m),
            BlockTarget::PayloadPattern(p) => {
                let mut q: Vec<u8> = Vec::new();
                let mut i: usize = 0;
                while i < p.len()
                    invariant
                        i <= p@.len(),
                        q@ == p@.subrange(0, i as int),
                    decreases p@.len() - i,
                {
                    q.push(p[i]);
                    assert(q@ =~= p@.subrange(0, i + 1));
                    i = i + 1;
                }
                assert(q@ =~= p@);
                BlockTarget::PayloadPattern(q)
            },
        }
    }
}

/// The targets a list stands for.
pub open spec fn target_set(s: Seq<BlockTarget>) -> Set<TargetView> {
    Set::new(|t: TargetView| exists|i: int| 0 <= i < s.len() && s[i]@ == t)
}

/// No target occurs twice.
pub open spec fn targets_unique(s: Seq<BlockTarget>) -> bool {
    forall|i: int, j: int| 0 <= i < j < s.len() ==> s[i]@ != s[j]@
}

/// XDP filter configuration.
#[derive(Debug)]
pub struct XdpFilter {
    /// Targets to block, each once.
    targets: Vec<BlockTarget>,
    /// NIC interface name (e.g., "eth0")
    pub interface: String,
    /// Filter priority (higher = evaluated first)
    pub priority: u32,
    /// Creation timestamp
    pub created_at: u64,
    /// State of the filter
    pub state: XdpState,
}

/// What a filter says: its targets as a set, its interface, and its state.
pub struct FilterView {
    pub targets: Set<TargetView>,
    pub interface: Seq<char>,
    pub priority: u32,
    pub created_at: u64,
    pub state: StateView,
}

impl View for XdpFilter {
    type V = FilterView;

    closed spec fn view(&self) -> FilterView {
        FilterView {
            targets: target_set(self.targets@),
            interface: self.interface@,
            priority: self.priority,
            created_at: self.created_at,
            state: self.state@,
        }
    }
}

impl XdpFilter {
    /// Each target is held once.
    pub closed spec fn wf(&self) -> bool {
        targets_unique(self.targets@)
    }

    /// An inactive filter without targets for an interface, created now.
    pub fn new(interface: &str, priority: u32) -> (f: Self)
        ensures
            f.wf(),
            f@.targets == Set::<TargetView>::empty(),
            f@.interface == interface@,
            f@.priority == priority,
            f@.state == StateView::Inactive,
    {
        let f = XdpFilter {
            targets: Vec::new(),
            interface: String::from_str(interface),
            priority,
            created_at: unix_now_secs(),
            state: XdpState::Inactive,
        };
        assert(target_set(f.targets@) =~= Set::<TargetView>::empty());
        f
    }

    /// The position of a target, if it is held.
    fn position(&self, target: &BlockTarget) -> (r: Option<usize>)
        ensures
            match r {
                Some(i) => i < self.targets@.len() && self.targets@[i as int]@ == target@,
                None => !target_set(self.targets@).contains(target@),
            },
    {
        let mut i: usize = 0;
        while i < self.targets.len()
            invariant
                i <= self.targets@.len(),
                forall|j: int| 0 <= j < i ==> self.targets@[j]@ != target@,
            decreases self.targets@.len() - i,
        {
            if self.targets[i].same_as(target) {
                return Some(i);
            }
            i = i + 1;
        }
        None
    }

    /// Adds a block target to the filter.
    pub fn add_target(&mut self, target: BlockTarget)
        requires
            old(self).wf(),
        ensures
            final(self).wf(),
            final(self)@ == (FilterView { targets: old(self)@.targets.insert(target@), ..old(self)@ }),
    {
        match self.position(&target) {
            Some(_) => {
                assert(target_set(self.targets@) =~= target_set(self.targets@).insert(target@));
            },
            None => {
                let ghost before = self.targets@;
                let ghost t = target@;
                self.targets.push(target);
                assert(targets_unique(self.targets@)) by {
                    assert forall|a: int, b: int| 0 <= a < b < self.targets@.len() implies self.targets@[a]@
                        != self.targets@[b]@ by {
                        if b == before.len() {
                            assert(self.targets@[a] == before[a]);
                        } else {
                            assert(self.targets@[a] == before[a] && self.targets@[b] == before[b]);
                        }
                    }
                }
                assert(target_set(self.targets@) =~= target_set(before).insert(t)) by {
                    assert forall|x: TargetView| target_set(self.targets@).contains(x) implies target_set(
                        before,
                    ).insert(t).contains(x) by {
                        let i = choose|i: int| 0 <= i < self.targets@.len() && self.targets@[i]@ == x;
                        if i < before.len() {
                            assert(before[i]@ == x);
                        }
                    }
                    assert forall|x: TargetView| target_set(before).insert(t).contains(x) implies target_set(
                        self.targets@,
                    ).contains(x) by {
                        if x == t {
                            assert(self.targets@[before.len() as int]@ == x);
                        } else {
                            let i = choose|i: int| 0 <= i < before.len() && before[i]@ == x;
                            assert(self.targets@[i]@ == x);
                        }
                    }
                }
            },
        }
    }

    /// Removes a block target; tells whether it was there.
    pub fn remove_target(&mut self, target: &BlockTarget) -> (removed: bool)
        requires
            old(self).wf(),
        ensures
            final(self).wf(),
            removed == old(self)@.targets.contains(target@),
            final(self)@ == (FilterView { targets: old(self)@.targets.remove(target@), ..old(self)@ }),
    {
        match self.position(target) {
            None => {
                assert(target_set(self.targets@) =~= target_set(self.targets@).remove(target@));
                false
            },
            Some(i) => {
                let ghost before = self.targets@;
                let ghost t = target@;
                assert(target_set(before).contains(t));
                self.targets.remove(i);
                assert(self.targets@ =~= before.remove(i as int));
                assert(targets_unique(self.targets@)) by {
                    assert forall|a: int, b: int| 0 <= a < b < self.targets@.len() implies self.targets@[a]@
                        != self.targets@[b]@ by {
                        let a0 = if a < i { a } else { a + 1 };
                        let b0 = if b < i { b } else { b + 1 };
                        assert(self.targets@[a] == before[a0] && self.targets@[b] == before[b0]);
                    }
                }
                assert(target_set(self.targets@) =~= target_set(before).remove(t)) by {
                    assert forall|x: TargetView| target_set(self.targets@).contains(x) implies target_set(
                        before,
                    ).remove(t).contains(x) by {
                        let k = choose|k: int| 0 <= k < self.targets@.len() && self.targets@[k]@ == x;
                        let k0 = if k < i { k } else { k + 1 };
                        assert(before[k0]@ == x);
                        assert(k0 != i);
                    }
                    assert forall|x: TargetView| target_set(before).remove(t).contains(x) implies target_set(
                        self.targets@,
                    ).contains(x) by {
                        let k = choose|k: int| 0 <= k < before.len() && before[k]@ == x;
                        assert(k != i);
                        let k1 = if k < i { k } else { k - 1 };
                        assert(self.targets@[k1]@ == x);
                    }
                }
                true
            },
        }
    }

    /// Whether the filter blocks a target.
    pub fn contains(&self, target: &BlockTarget) -> (b: bool)
        ensures
            b == self@.targets.contains(target@),
    {
        match self.position(target) {
            Some(i) => {
                assert(target_set(self.targets@).contains(self.targets@[i as int]@));
                true
            },
            None => false,
        }
    }

    /// The targets, each once.
    pub fn targets(&self) -> (r: &Vec<BlockTarget>)
        ensures
            target_set(r@) == self@.targets,
    {
        &self.targets
    }

    /// Check if filter is active.
    pub fn is_active(&self) -> (b: bool)
        ensures
            b == (self@.state is Active),
    {
        self.state.is_active()
    }

    /// A copy of this filter.
    pub fn duplicate(&self) -> (f: Self)
        requires
            self.wf(),
        ensures
            f.wf(),
            f@ == self@,
    {
        let mut targets: Vec<BlockTarget> = Vec::new();
        let mut i: usize = 0;
        while i < self.targets.len()
            invariant
                i <= self.targets@.len(),
                targets@.len() == i,
                forall|j: int| 0 <= j < i ==> (#[trigger] targets@[j])@ == self.targets@[j]@,
            decreases self.targets@.len() - i,
        {
            targets.push(self.targets[i].duplicate());
            i = i + 1;
        }
        let f = XdpFilter {
            targets,
            interface: self.interface.clone(),
            priority: self.priority,
            created_at: self.created_at,
            state: self.state.duplicate(),
        };
        assert(target_set(f.targets@) =~= target_set(self.targets@)) by {
            assert forall|x: TargetView| target_set(f.targets@).contains(x) implies target_set(
                self.targets@,
            ).contains(x) by {
                let k = choose|k: int| 0 <= k < f.targets@.len() && f.targets@[k]@ == x;
                assert(self.targets@[k]@ == x);
            }
            assert forall|x: TargetView| target_set(self.targets@).contains(x) implies target_set(
                f.targets@,
            ).contains(x) by {
                let k = choose|k: int| 0 <= k < self.targets@.len() && self.targets@[k]@ == x;
                assert(f.targets@[k]@ == x);
            }
        }
        assert(targets_unique(f.targets@)) by {
            assert forall|a: int, b: int| 0 <= a < b < f.targets@.len() implies f.targets@[a]@
                != f.targets@[b]@ by {
                assert(f.targets@[a]@ == self.targets@[a]@ && f.targets@[b]@ == self.targets@[b]@);
            }
        }
        f
    }
}

/// The index of the filter for an interface.
pub open spec fn filter_index(s: Seq<FilterView>, interface: Seq<char>) -> Option<int> {
    if exists|i: int| 0 <= i < s.len() && s[i].interface == interface {
        Some(choose|i: int| 0 <= i < s.len() && s[i].interface == interface)
    } else {
        None
    }
}

/// No two filters share an interface, and each holds its targets once.
pub closed spec fn filters_wf(s: Seq<XdpFilter>) -> bool {
    &&& forall|i: int, j: int| 0 <= i < j < s.len() ==> s[i].interface@ != s[j].interface@
    &&& forall|i: int| 0 <= i < s.len() ==> (#[trigger] s[i]).wf()
}

proof fn lemma_filter_index(s: Seq<XdpFilter>, i: int)
    requires
        filters_wf(s),
        0 <= i < s.len(),
    ensures
        filter_index(filter_views(s), s[i].interface@) == Some(i),
{
    let v = filter_views(s);
    let n = s[i].interface@;
    assert(0 <= i < v.len() && v[i].interface == n);
    let j = choose|j: int| 0 <= j < v.len() && v[j].interface == n;
    if j < i {
        assert(s[j].interface@ != s[i].interface@);
    } else if i < j {
        assert(s[i].interface@ != s[j].interface@);
    }
}

/// The views of a list of filters.
pub open spec fn filter_views(s: Seq<XdpFilter>) -> Seq<FilterView> {
    s.map_values(|f: XdpFilter| f@)
}

/// XDP shield manager: one filter per interface.
#[derive(Debug)]
pub struct XdpShield {
    filters: Vec<XdpFilter>,
}

impl XdpShield {
    /// The filters, in the order they were added.
    pub closed spec fn filters(&self) -> Seq<FilterView> {
        filter_views(self.filters@)
    }

    pub closed spec fn wf(&self) -> bool {
        filters_wf(self.filters@)
    }

    /// A shield without filters.
    pub fn new() -> (s: Self)
        ensures
            s.wf(),
            s.filters().len() == 0,
    {
        let s = XdpShield { filters: Vec::new() };
        assert(filter_views(s.filters@) =~= Seq::<FilterView>::empty());
        s
    }

    /// Create a new XDP filter for a specific interface.
    pub fn create_filter(&self, interface: &str, priority: u32) -> (f: XdpFilter)
        ensures
            f.wf(),
            f@.targets == Set::<TargetView>::empty(),
            f@.interface == interface@,
            f@.priority == priority,
            f@.state == StateView::Inactive,
    {
        XdpFilter::new(interface, priority)
    }

    /// The position of the filter for an interface.
    fn find(&self, interface: &str) -> (r: Option<usize>)
        requires
            self.wf(),
        ensures
            match r {
                Some(i) => i < self.filters@.len() && filter_index(self.filters(), interface@) == Some(
                    i as int,
                ),
                None => filter_index(self.filters(), interface@) is None,
            },
    {
        let mut i: usize = 0;
        while i < self.filters.len()
            invariant
                i <= self.filters@.len(),
                filters_wf(self.filters@),
                forall|j: int| 0 <= j < i ==> self.filters@[j].interface@ != interface@,
            decreases self.filters@.len() - i,
        {
            if same_text(self.filters[i].interface.as_str(), interface) {
                proof {
                    lemma_filter_index(self.filters@, i as int);
                }
                return Some(i);
            }
            i = i + 1;
        }
        None
    }

    /// Adds a filter; an interface that already has one is an error.
    pub fn add_filter(&mut self, filter: XdpFilter) -> (r: Result<(), String>)
        requires
            old(self).wf(),
            filter.wf(),
        ensures
            final(self).wf(),
            match filter_index(old(self).filters(), filter@.interface) {
                Some(_) => r is Err && r->Err_0@ == "Filter already exists for interface "@
                    + filter@.interface && final(self).filters() == old(self).filters(),
                None => r is Ok && final(self).filters() == old(self).filters().push(filter@),
            },
    {
        match self.find(filter.interface.as_str()) {
            Some(_) => Err(concat_str("Filter already exists for interface ", filter.interface.as_str())),
            None => {
                let ghost before = self.filters@;
                let ghost v = filter@;
                self.filters.push(filter);
                proof {
                    assert forall|i: int, j: int| 0 <= i < j < self.filters@.len() implies self.filters@[i].interface@
                        != self.filters@[j].interface@ by {
                        if j == before.len() {
                            assert(self.filters@[i] == before[i]);
                            assert(filter_views(before)[i] == before[i]@);
                            assert(before[i].interface@ != v.interface);
                        } else {
                            assert(self.filters@[i] == before[i] && self.filters@[j] == before[j]);
                        }
                    }
                    assert forall|i: int| 0 <= i < self.filters@.len() implies (#[trigger] self.filters@[i]).wf() by {
                        if i < before.len() {
                            assert(self.filters@[i] == before[i]);
                        }
                    }
                    assert(filter_views(self.filters@) =~= filter_views(before).push(v));
                }
                Ok(())
            },
        }
    }

    /// Removes the filter of an interface; tells whether there was one.
    pub fn remove_filter(&mut self, interface: &str) -> (r: Result<bool, String>)
        requires
            old(self).wf(),
        ensures
            final(self).wf(),
            match filter_index(old(self).filters(), interface@) {
                Some(i) => r == Ok::<bool, String>(true) && final(self).filters() == old(self).filters().remove(i),
                None => r == Ok::<bool, String>(false) && final(self).filters() == old(self).filters(),
            },
    {
        match self.find(interface) {
            None => Ok(false),
            Some(i) => {
                let ghost before = self.filters@;
                self.filters.remove(i);
                proof {
                    assert(self.filters@ =~= before.remove(i as int));
                    assert forall|a: int, b: int| 0 <= a < b < self.filters@.len() implies self.filters@[a].interface@
                        != self.filters@[b].interface@ by {
                        let a0 = if a < i { a } else { a + 1 };
                        let b0 = if b < i { b } else { b + 1 };
                        assert(self.filters@[a] == before[a0] && self.filters@[b] == before[b0]);
                    }
                    assert forall|a: int| 0 <= a < self.filters@.len() implies (#[trigger] self.filters@[a]).wf() by {
                        let a0 = if a < i { a } else { a + 1 };
                        assert(self.filters@[a] == before[a0]);
                    }
                    assert(filter_views(self.filters@) =~= filter_views(before).remove(i as int));
                }
                Ok(true)
            },
        }
    }

    /// A copy of the filter of an interface.
    pub fn get_filter(&self, interface: &str) -> (r: Result<Option<XdpFilter>, String>)
        requires
            self.wf(),
        ensures
            match filter_index(self.filters(), interface@) {
                Some(i) => r matches Ok(Some(f)) && f.wf() && f@ == self.filters()[i],
                None => r matches Ok(None),
            },
    {
        match self.find(interface) {
            Some(i) => {
                assert(self.filters@[i as int].wf());
                Ok(Some(self.filters[i].duplicate()))
            },
            None => Ok(None),
        }
    }

    /// Copies of all filters, in order.
    pub fn list_filters(&self) -> (r: Result<Vec<XdpFilter>, String>)
        requires
            self.wf(),
        ensures
            r is Ok,
            filter_views(r->Ok_0@) == self.filters(),
    {
        let mut r: Vec<XdpFilter> = Vec::new();
        let mut i: usize = 0;
        while i < self.filters.len()
            invariant
                i <= self.filters@.len(),
                filters_wf(self.filters@),
                r@.len() == i,
                forall|j: int| 0 <= j < i ==> (#[trigger] r@[j])@ == self.filters@[j]@,
            decreases self.filters@.len() - i,
        {
            assert(self.filters@[i as int].wf());
            r.push(self.filters[i].duplicate());
            i = i + 1;
        }
        assert(filter_views(r@) =~= filter_views(self.filters@));
        Ok(r)
    }

    /// Sets the state of the filter of an interface.
    fn set_state(&mut self, i: usize, state: XdpState)
        requires
            old(self).wf(),
            i < old(self).filters@.len(),
        ensures
            final(self).wf(),
            final(self).filters() == old(self).filters().update(
                i as int,
                FilterView { state: state@, ..old(self).filters()[i as int] },
            ),
            final(self).filters@[i as int].interface@ == old(self).filters@[i as int].interface@,
            forall|j: int| 0 <= j < old(self).filters@.len() && j != i ==> final(self).filters@[j] == old(self).filters@[j],
    {
        let ghost before = self.filters@;
        let mut filters = Vec::new();
        std::mem::swap(&mut filters, &mut self.filters);
        let mut f = filters.remove(i);
        f.state = state;
        filters.insert(i, f);
        self.filters = filters;
        proof {
            assert forall|j: int| 0 <= j < before.len() && j != i implies self.filters@[j] == before[j] by {}
            assert forall|a: int, b: int| 0 <= a < b < self.filters@.len() implies self.filters@[a].interface@
                != self.filters@[b].interface@ by {
                assert(self.filters@[a].interface@ == before[a].interface@);
                assert(self.filters@[b].interface@ == before[b].interface@);
            }
            assert forall|a: int| 0 <= a < self.filters@.len() implies (#[trigger] self.filters@[a]).wf() by {
                assert(before[a].wf());
            }
            assert(filter_views(self.filters@) =~= filter_views(before).update(
                i as int,
                FilterView { state: state@, ..filter_views(before)[i as int] },
            ));
        }
    }

    /// Activates the filter of an interface; an interface without one is an error.
    pub fn activate_filter(&mut self, interface: &str) -> (r: Result<(), String>)
        requires
            old(self).wf(),
        ensures
            final(self).wf(),
            match filter_index(old(self).filters(), interface@) {
                Some(i) => r is Ok && final(self).filters() == old(self).filters().update(
                    i,
                    FilterView { state: StateView::Active, ..old(self).filters()[i] },
                ),
                None => r is Err && r->Err_0@ == "Filter not found for interface "@ + interface@
                    && final(self).filters() == old(self).filters(),
            },
    {
        match self.find(interface) {
            Some(i) => {
                self.set_state(i, XdpState::Active);
                Ok(())
            },
            None => Err(concat_str("Filter not found for interface ", interface)),
        }
    }

    /// Deactivates the filter of an interface; an interface without one is an error.
    pub fn deactivate_filter(&mut self, interface: &str) -> (r: Result<(), String>)
        requires
            old(self).wf(),
        ensures
            final(self).wf(),
            match filter_index(old(self).filters(), interface@) {
                Some(i) => r is Ok && final(self).filters() == old(self).filters().update(
                    i,
                    FilterView { state: StateView::Inactive, ..old(self).filters()[i] },
                ),
                None => r is Err && r->Err_0@ == "Filter not found for interface "@ + interface@
                    && final(self).filters() == old(self).filters(),
            },
    {
        match self.find(interface) {
            Some(i) => {
                self.set_state(i, XdpState::Inactive);
                Ok(())
            },
            None => Err(concat_str("Filter not found for interface ", interface)),
        }
    }

    /// Adds a target to the filter of an interface; an interface without one is an error.
    pub fn add_target_to_filter(&mut self, interface: &str, target: BlockTarget) -> (r: Result<
        (),
        String,
    >)
        requires
            old(self).wf(),
        ensures
            final(self).wf(),
            match filter_index(old(self).filters(), interface@) {
                Some(i) => r is Ok && final(self).filters() == old(self).filters().update(
                    i,
                    FilterView {
                        targets: old(self).filters()[i].targets.insert(target@),
                        ..old(self).filters()[i]
                    },
                ),
                None => r is Err && r->Err_0@ == "Filter not found for interface "@ + interface@
                    && final(self).filters() == old(self).filters(),
            },
    {
        match self.find(interface) {
            Some(i) => {
                let ghost before = self.filters@;
                let mut filters = Vec::new();
                std::mem::swap(&mut filters, &mut self.filters);
                let mut f = filters.remove(i);
                assert(before[i as int].wf());
                f.add_target(target);
                filters.insert(i, f);
                self.filters = filters;
                proof {
                    assert forall|a: int, b: int| 0 <= a < b < self.filters@.len() implies self.filters@[a].interface@
                        != self.filters@[b].interface@ by {
                        assert(self.filters@[a].interface@ == before[a].interface@);
                        assert(self.filters@[b].interface@ == before[b].interface@);
                    }
                    assert forall|a: int| 0 <= a < self.filters@.len() implies (#[trigger] self.filters@[a]).wf() by {
                        assert(before[a].wf());
                    }
                    assert(filter_views(self.filters@) =~= filter_views(before).update(
                        i as int,
                        FilterView {
                            targets: filter_views(before)[i as int].targets.insert(target@),
                            ..filter_views(before)[i as int]
                        },
                    ));
                }
                Ok(())
            },
            None => Err(concat_str("Filter not found for interface ", interface)),
        }
    }

    /// Whether any filter blocks the address.
    pub fn is_blocked(&self, ip: &IpAddress) -> (r: Result<bool, String>)
        requires
            self.wf(),
        ensures
            r == Ok::<bool, String>(
                exists|i: int| 0 <= i < self.filters().len() && self.filters()[i].targets.contains(TargetView::Ip(*ip)),
            ),
    {
        let target = BlockTarget::Ip(*ip);
        let mut i: usize = 0;
        while i < self.filters.len()
            invariant
                i <= self.filters@.len(),
                target@ == TargetView::Ip(*ip),
                forall|j: int| 0 <= j < i ==> !filter_views(self.filters@)[j].targets.contains(TargetView::Ip(*ip)),
            decreases self.filters@.len() - i,
        {
            if self.filters[i].contains(&target) {
                assert(filter_views(self.filters@)[i as int].targets.contains(TargetView::Ip(*ip)));
                return Ok(true);
            }
            i = i + 1;
        }
        Ok(false)
    }
}

impl Default for XdpShield {
    fn default() -> (s: Self)
        ensures
            s.wf(),
            s.filters().len() == 0,
    {
        XdpShield::new()
    }
}

/// Every interface is new to the filters, and none occurs twice.
pub open spec fn fresh_interfaces(filters: Seq<FilterView>, interfaces: Seq<String>) -> bool {
    &&& forall|k: int| 0 <= k < interfaces.len() ==> filter_index(filters, #[trigger] interfaces[k]@) is None
    &&& forall|a: int, b: int| 0 <= a < b < interfaces.len() ==> interfaces[a]@ != interfaces[b]@
}

/// `after` is `before` followed by one new, empty, inactive filter of priority
/// 100 for each interface, in order.
pub open spec fn added_filters(before: Seq<FilterView>, after: Seq<FilterView>, interfaces: Seq<String>) -> bool {
    &&& after.len() == before.len() + interfaces.len()
    &&& after.subrange(0, before.len() as int) == before
    &&& forall|k: int|
        0 <= k < interfaces.len() ==> {
            let f = #[trigger] after[before.len() + k];
            &&& f.interface == interfaces[k]@
            &&& f.priority == 100
            &&& f.targets == Set::<TargetView>::empty()
            &&& f.state == StateView::Inactive
        }
}

/// A name absent from a prefix of the filters is absent from it.
proof fn lemma_index_prefix(start: Seq<FilterView>, cur: Seq<FilterView>, n: Seq<char>)
    requires
        start.len() <= cur.len(),
        cur.subrange(0, start.len() as int) == start,
        filter_index(cur, n) is None,
    ensures
        filter_index(start, n) is None,
{
    if exists|i: int| 0 <= i < start.len() && start[i].interface == n {
        let i = choose|i: int| 0 <= i < start.len() && start[i].interface == n;
        assert(cur[i] == start[i]);
    }
}

/// Safe wrapper for XDP operations.
#[derive(Debug)]
pub struct XdpNative {
    shield: XdpShield,
}

impl XdpNative {
    pub closed spec fn spec_shield(&self) -> XdpShield {
        self.shield
    }

    pub fn new() -> (n: Self)
        ensures
            n.spec_shield().wf(),
            n.spec_shield().filters().len() == 0,
    {
        XdpNative { shield: XdpShield::new() }
    }

    /// When enabled, adds a fresh filter of priority 100 for each interface in
    /// order, stopping with the error of the first interface that already has one.
    pub fn initialize(&mut self, enabled: bool, interfaces: &Vec<String>) -> (r: Result<(), String>)
        requires
            old(self).spec_shield().wf(),
        ensures
            final(self).spec_shield().wf(),
            !enabled ==> r is Ok && final(self).spec_shield().filters() == old(self).spec_shield().filters(),
            enabled ==> (r is Ok <==> fresh_interfaces(old(self).spec_shield().filters(), interfaces@)),
            enabled && r is Ok ==> added_filters(
                old(self).spec_shield().filters(),
                final(self).spec_shield().filters(),
                interfaces@,
            ),
            r is Err ==> exists|k: int|
                0 <= k < interfaces@.len() && r->Err_0@ == "Filter already exists for interface "@
                    + interfaces@[k]@,
    {
        if !enabled {
            return Ok(());
        }
        let ghost start = self.shield.filters();
        assert(start.subrange(0, start.len() as int) =~= start);
        let mut i: usize = 0;
        while i < interfaces.len()
            invariant
                i <= interfaces@.len(),
                enabled,
                old(self).spec_shield().filters() == start,
                self.shield.wf(),
                fresh_interfaces(start, interfaces@.subrange(0, i as int)),
                added_filters(start, self.shield.filters(), interfaces@.subrange(0, i as int)),
            decreases interfaces@.len() - i,
        {
            let ghost cur = self.shield.filters();
            let filter = self.shield.create_filter(interfaces[i].as_str(), 100);
            match self.shield.add_filter(filter) {
                Ok(()) => {
                    proof {
                        let pre = interfaces@.subrange(0, i as int);
                        let post = interfaces@.subrange(0, i + 1);
                        assert(post =~= pre.push(interfaces@[i as int]));
                        let after = self.shield.filters();
                        assert(after.subrange(0, start.len() as int) =~= start) by {
                            assert forall|k: int| 0 <= k < start.len() implies after[k] == start[k] by {
                                assert(cur.subrange(0, start.len() as int)[k] == cur[k]);
                            }
                        }
                        assert forall|k: int| 0 <= k < post.len() implies {
                            let f = #[trigger] after[start.len() + k];
                            &&& f.interface == post[k]@
                            &&& f.priority == 100
                            &&& f.targets == Set::<TargetView>::empty()
                            &&& f.state == StateView::Inactive
                        } by {
                            if k < i {
                                assert(after[start.len() + k] == cur[start.len() + k]);
                                assert(post[k] == pre[k]);
                            }
                        }
                        assert forall|k: int| 0 <= k < post.len() implies filter_index(
                            start,
                            #[trigger] post[k]@,
                        ) is None by {
                            if k == i {
                                lemma_index_prefix(start, cur, interfaces@[k]@);
                            } else {
                                assert(post[k] == pre[k]);
                            }
                        }
                        assert forall|a: int, b: int| 0 <= a < b < post.len() implies post[a]@
                            != post[b]@ by {
                            if b == i {
                                assert(cur[start.len() + a].interface == pre[a]@);
                                assert(filter_index(cur, interfaces@[b]@) is None);
                                assert(cur[start.len() + a].interface != interfaces@[b]@);
                            } else {
                                assert(post[a] == pre[a] && post[b] == pre[b]);
                            }
                        }
                    }
                },
                Err(e) => {
                    proof {
                        let pre = interfaces@.subrange(0, i as int);
                        let n = interfaces@[i as int]@;
                        let j = filter_index(cur, n)->0;
                        assert(0 <= j < cur.len() && cur[j].interface == n);
                        if j < start.len() {
                            assert(start[j].interface == n);
                            assert(filter_index(start, n) is Some);
                            assert(!fresh_interfaces(start, interfaces@)) by {
                                assert(filter_index(start, interfaces@[i as int]@) is Some);
                            }
                        } else {
                            let a = j - start.len();
                            assert(cur[start.len() + a].interface == pre[a]@);
                            assert(pre[a]@ == n);
                            assert(!fresh_interfaces(start, interfaces@)) by {
                                assert(interfaces@[a]@ == interfaces@[i as int]@);
                            }
                        }
                    }
                    return Err(e);
                },
            }
            i = i + 1;
        }
        assert(interfaces@.subrange(0, i as int) =~= interfaces@);
        Ok(())
    }

    /// The shield.
    pub fn shield(&self) -> (s: &XdpShield)
        ensures
            *s == self.spec_shield(),
    {
        &self.shield
    }
}

/// Adding a target that a filter does not block and then removing it gives
/// back the filter as it was; in between the filter blocks it.
pub proof fn law_remove_undoes_add_target(f: FilterView, t: TargetView)
    requires
        !f.targets.contains(t),
    ensures
        ({
            let added = FilterView { targets: f.targets.insert(t), ..f };
            &&& added.targets.contains(t)
            &&& FilterView { targets: added.targets.remove(t), ..added } == f
        }),
{
    assert(f.targets.insert(t).remove(t) =~= f.targets);
}

} // verus!
