//! The fleet gossip protocol: messages, peers, shared state vectors and threat
//! signatures, and the bookkeeping a node does as messages arrive.
//!
//! Sockets, threads and the wire encoding are the caller's. Floating-point
//! figures travel as their IEEE 754 bit patterns.
use vstd::prelude::*;
use crate::clock::unix_now_secs;
use crate::text::{concat_str, copy_strings, decimal, decimal_string, views};
use crate::xdp::SocketAddress;

verus! {

/// Gossip message types.
#[derive(Debug, Clone, Copy, PartialEq, Eq, Structural)]
pub enum GossipMessageType {
    /// Heartbeat message (node is alive)
    Heartbeat,
    /// State vector sharing
    StateVector,
    /// Threat signature alert
    ThreatAlert,
    /// Node join announcement
    NodeJoin,
    /// Node leave announcement
    NodeLeave,
    /// Request for state vectors
    StateRequest,
    /// Response with state vectors
    StateResponse,
    /// Acknowledgment
    Acknowledgment,
}

/// The wire code of a message type.
pub open spec fn message_code(t: GossipMessageType) -> u8 {
    match t {
        GossipMessageType::Heartbeat => 0x01,
        GossipMessageType::StateVector => 0x02,
        GossipMessageType::ThreatAlert => 0x03,
        GossipMessageType::NodeJoin => 0x04,
        GossipMessageType::NodeLeave => 0x05,
        GossipMessageType::StateRequest => 0x06,
        GossipMessageType::StateResponse => 0x07,
        GossipMessageType::Acknowledgment => 0x08,
    }
}

impl GossipMessageType {
    /// The wire code of the message type.
    pub fn code(self) -> (c: u8)
        ensures
            c == message_code(self),
    {
        match self {
            GossipMessageType::Heartbeat => 0x01,
            GossipMessageType::StateVector => 0x02,
            GossipMessageType::ThreatAlert => 0x03,
            GossipMessageType::NodeJoin => 0x04,
            GossipMessageType::NodeLeave => 0x05,
            GossipMessageType::StateRequest => 0x06,
            GossipMessageType::StateResponse => 0x07,
            GossipMessageType::Acknowledgment => 0x08,
        }
    }

    /// The message type of a wire code.
    pub fn from_code(code: u8) -> (t: Option<Self>)
        ensures
            match t {
                Some(t) => message_code(t) == code,
                None => code < 1 || code > 8,
            },
    {
        match code {
            0x01 => Some(GossipMessageType::Heartbeat),
            0x02 => Some(GossipMessageType::StateVector),
            0x03 => Some(GossipMessageType::ThreatAlert),
            0x04 => Some(GossipMessageType::NodeJoin),
            0x05 => Some(GossipMessageType::NodeLeave),
            0x06 => Some(GossipMessageType::StateRequest),
            0x07 => Some(GossipMessageType::StateResponse),
            0x08 => Some(GossipMessageType::Acknowledgment),
            _ => None,
        }
    }
}

/// Threat severity levels.
#[derive(Debug, Clone, Copy, PartialEq, Eq, Structural)]
pub enum ThreatSeverity {
    Low,
    Medium,
    High,
    Critical,
}

/// The level of a severity, 1 (low) to 4 (critical).
pub open spec fn severity_level(s: ThreatSeverity) -> u8 {
    match s {
        ThreatSeverity::Low => 1,
        ThreatSeverity::Medium => 2,
        ThreatSeverity::High => 3,
        ThreatSeverity::Critical => 4,
    }
}

impl ThreatSeverity {
    /// The level of the severity, 1 (low) to 4 (critical).
    pub fn level(self) -> (l: u8)
        ensures
            l == severity_level(self),
    {
        match self {
            ThreatSeverity::Low => 1,
            ThreatSeverity::Medium => 2,
            ThreatSeverity::High => 3,
            ThreatSeverity::Critical => 4,
        }
    }
}

/// How long a threat signature stays valid, in seconds.
pub const SIGNATURE_LIFETIME: u64 = 3600;

/// The expiry of a signature issued at `timestamp`: an hour later, at most the
/// last representable second.
pub open spec fn expiry(timestamp: u64) -> u64 {
    if timestamp <= u64::MAX - 3600 {
        (timestamp + 3600) as u64
    } else {
        u64::MAX
    }
}

/// Threat signature.
#[derive(Debug, Clone)]
pub struct ThreatSignature {
    pub signature_id: String,
    pub threat_type: String,
    pub severity: ThreatSeverity,
    pub signature_data: Vec<u8>,
    pub affected_nodes: Vec<String>,
    pub timestamp: u64,
    pub expiration: u64,
}

/// Whether a signature expiring at `expiration` has expired at `now`.
pub open spec fn expired_by(expiration: u64, now: u64) -> bool {
    now > expiration
}

impl ThreatSignature {
    /// A signature issued now, valid for an hour.
    pub fn new(threat_type: &str, severity: ThreatSeverity, signature_data: Vec<u8>) -> (s: Self)
        ensures
            s.threat_type@ == threat_type@,
            s.severity == severity,
            s.signature_data@ == signature_data@,
            s.affected_nodes@.len() == 0,
            s.signature_id@ == "threat_"@ + threat_type@ + "_"@ + decimal(s.timestamp as nat),
            s.expiration == expiry(s.timestamp),
    {
        let timestamp = unix_now_secs();
        ThreatSignature::issued_at(threat_type, severity, signature_data, timestamp)
    }

    /// A signature issued at `timestamp`, valid for an hour.
    pub fn issued_at(
        threat_type: &str,
        severity: ThreatSeverity,
        signature_data: Vec<u8>,
        timestamp: u64,
    ) -> (s: Self)
        ensures
            s.threat_type@ == threat_type@,
            s.severity == severity,
            s.signature_data@ == signature_data@,
            s.affected_nodes@.len() == 0,
            s.timestamp == timestamp,
            s.signature_id@ == "threat_"@ + threat_type@ + "_"@ + decimal(timestamp as nat),
            s.expiration == expiry(timestamp),
    {
        let id = concat_str(&concat_str(&concat_str("threat_", threat_type), "_"), decimal_string(
            timestamp,
        ).as_str());
        let expiration = if timestamp <= u64::MAX - SIGNATURE_LIFETIME {
            timestamp + SIGNATURE_LIFETIME
        } else {
            u64::MAX
        };
        ThreatSignature {
            signature_id: id,
            threat_type: String::from_str(threat_type),
            severity,
            signature_data,
            affected_nodes: Vec::new(),
            timestamp,
            expiration,
        }
    }

    /// Whether the signature has expired by the given time (seconds).
    pub fn is_expired_at(&self, now: u64) -> (b: bool)
        ensures
            b == (now > self.expiration),
    {
        now > self.expiration
    }

    /// Whether the signature has expired by the current time: whether the
    /// clock reading, which nothing here fixes, is past the expiration.
    pub fn is_expired(&self) -> (b: bool)
        ensures
            exists|now: u64| #[trigger] expired_by(self.expiration, now) == b,
    {
        let now = unix_now_secs();
        let b = self.is_expired_at(now);
        assert(expired_by(self.expiration, now) == b);
        b
    }
}

/// Gossip message.
#[derive(Debug, Clone)]
pub struct GossipMessage {
    pub message_type: GossipMessageType,
    pub node_id: String,
    pub timestamp: u64,
    pub sequence_number: u64,
    pub payload: Vec<u8>,
}

impl GossipMessage {
    /// A message sent now, without payload; the sender sets its sequence number.
    pub fn new(message_type: GossipMessageType, node_id: &str) -> (m: Self)
        ensures
            m.message_type == message_type,
            m.node_id@ == node_id@,
            m.sequence_number == 0,
            m.payload@.len() == 0,
    {
        GossipMessage::sent_at(message_type, node_id, unix_now_secs())
    }

    /// A message sent at `timestamp`, without payload.
    pub fn sent_at(message_type: GossipMessageType, node_id: &str, timestamp: u64) -> (m: Self)
        ensures
            m.message_type == message_type,
            m.node_id@ == node_id@,
            m.timestamp == timestamp,
            m.sequence_number == 0,
            m.payload@.len() == 0,
    {
        GossipMessage {
            message_type,
            node_id: String::from_str(node_id),
            timestamp,
            sequence_number: 0,
            payload: Vec::new(),
        }
    }
}

/// Gossip network statistics.
#[derive(Debug, Clone)]
pub struct GossipStats {
    pub node_id: String,
    pub total_nodes: usize,
    pub active_nodes: usize,
    pub total_state_vectors: usize,
    pub total_threat_signatures: usize,
    pub critical_threat_signatures: usize,
    pub running: bool,
}

/// The capabilities a node announces.
pub open spec fn default_capabilities() -> Seq<Seq<char>> {
    seq!["xdp"@, "cgroup"@, "zram"@]
}

/// A peer of the gossip network.
#[derive(Debug, Clone)]
pub struct GossipNode {
    pub node_id: String,
    pub address: SocketAddress,
    pub last_seen: u64,
    pub state_hash: String,
    pub version: String,
    pub capabilities: Vec<String>,
}

/// What a peer record says.
pub struct NodeView {
    pub node_id: Seq<char>,
    pub address: SocketAddress,
    pub last_seen: u64,
    pub state_hash: Seq<char>,
    pub version: Seq<char>,
    pub capabilities: Seq<Seq<char>>,
}

impl View for GossipNode {
    type V = NodeView;

    open spec fn view(&self) -> NodeView {
        NodeView {
            node_id: self.node_id@,
            address: self.address,
            last_seen: self.last_seen,
            state_hash: self.state_hash@,
            version: self.version@,
            capabilities: views(self.capabilities@),
        }
    }
}

/// A peer first seen at `now`.
pub open spec fn node_seen(node_id: Seq<char>, address: SocketAddress, version: Seq<char>, now: u64) -> NodeView {
    NodeView {
        node_id,
        address,
        last_seen: now,
        state_hash: Seq::empty(),
        version,
        capabilities: default_capabilities(),
    }
}

/// A peer last seen at `last_seen` is alive at `now` when at most `timeout`
/// seconds have passed; one seen after `now` is not.
pub open spec fn node_alive(last_seen: u64, now: u64, timeout: u64) -> bool {
    last_seen <= now && now - last_seen <= timeout
}

impl GossipNode {
    /// A peer seen now, with the default capabilities.
    pub fn new(node_id: String, address: SocketAddress, version: &str) -> (n: Self)
        ensures
            n@ == node_seen(node_id@, address, version@, n.last_seen),
    {
        GossipNode::seen_at(node_id, address, version, unix_now_secs())
    }

    /// A peer seen at `now`, with the default capabilities.
    pub fn seen_at(node_id: String, address: SocketAddress, version: &str, now: u64) -> (n: Self)
        ensures
            n@ == node_seen(node_id@, address, version@, now),
    {
        let mut capabilities: Vec<String> = Vec::new();
        capabilities.push(String::from_str("xdp"));
        capabilities.push(String::from_str("cgroup"));
        capabilities.push(String::from_str("zram"));
        let n = GossipNode {
            node_id,
            address,
            last_seen: now,
            state_hash: String::new(),
            version: String::from_str(version),
            capabilities,
        };
        assert(views(n.capabilities@) =~= default_capabilities());
        n
    }

    /// Whether the peer was seen at most `timeout_seconds` before `now`.
    pub fn is_alive_at(&self, now: u64, timeout_seconds: u64) -> (b: bool)
        ensures
            b == node_alive(self.last_seen, now, timeout_seconds),
    {
        self.last_seen <= now && now - self.last_seen <= timeout_seconds
    }

    /// Whether the peer was seen at most `timeout_seconds` ago: `is_alive_at`
    /// at the clock reading, which nothing here fixes.
    pub fn is_alive(&self, timeout_seconds: u64) -> (b: bool)
        ensures
            exists|now: u64| #[trigger] node_alive(self.last_seen, now, timeout_seconds) == b,
    {
        let now = unix_now_secs();
        let b = self.is_alive_at(now, timeout_seconds);
        assert(node_alive(self.last_seen, now, timeout_seconds) == b);
        b
    }

    /// A copy of this record.
    pub fn copy(&self) -> (n: Self)
        ensures
            n@ == self@,
    {
        GossipNode {
            node_id: self.node_id.clone(),
            address: self.address,
            last_seen: self.last_seen,
            state_hash: self.state_hash.clone(),
            version: self.version.clone(),
            capabilities: copy_strings(&self.capabilities),
        }
    }
}

/// A state vector of compressed log data, as shared between nodes. The
/// components, the severity and the entropy are IEEE 754 double-precision
/// numbers held as their bit patterns.
#[derive(Debug, Clone)]
pub struct StateVector {
    pub vector_id: String,
    pub data_bits: Vec<u64>,
    pub timestamp: u64,
    pub source_node: String,
    pub severity_bits: u64,
    pub entropy_bits: u64,
}

/// What a state vector says.
pub struct VectorView {
    pub vector_id: Seq<char>,
    pub data_bits: Seq<u64>,
    pub timestamp: u64,
    pub source_node: Seq<char>,
    pub severity_bits: u64,
    pub entropy_bits: u64,
}

impl View for StateVector {
    type V = VectorView;

    open spec fn view(&self) -> VectorView {
        VectorView {
            vector_id: self.vector_id@,
            data_bits: self.data_bits@,
            timestamp: self.timestamp,
            source_node: self.source_node@,
            severity_bits: self.severity_bits,
            entropy_bits: self.entropy_bits,
        }
    }
}

/// The identifier of a vector from `source` made at `timestamp`.
pub open spec fn vector_id_of(source: Seq<char>, timestamp: u64) -> Seq<char> {
    "vec_"@ + source + "_"@ + decimal(timestamp as nat)
}

/// The product, wrapping at 64 bits, of `h` and the values of `s` in order.
pub open spec fn mul_fold(h: u64, s: Seq<u64>) -> u64
    decreases s.len(),
{
    if s.len() == 0 {
        h
    } else {
        mul_fold(h, s.drop_last()).wrapping_mul(s.last())
    }
}

/// A lower-case hexadecimal digit.
pub open spec fn hex_digit(d: u64) -> char {
    if d < 10 {
        (48 + d) as char
    } else {
        (87 + d) as char
    }
}

/// The 16 lower-case hexadecimal digits of `n`, most significant first, as
/// `{:016x}` writes it.
pub open spec fn hex16(n: u64) -> Seq<char> {
    Seq::new(16, |i: int| hex_digit((n >> ((60 - 4 * i) as u64)) & 15))
}

/// The hash of a state vector: the wrapping product of its components' bits
/// from 0, combined by exclusive or with its timestamp, severity and entropy.
pub open spec fn vector_hash(v: VectorView) -> Seq<char> {
    hex16(mul_fold(0, v.data_bits) ^ v.timestamp ^ v.severity_bits ^ v.entropy_bits)
}

fn hex_str(d: u64) -> (s: &'static str)
    requires
        d < 16,
    ensures
        s@ == seq![hex_digit(d)],
{
    proof {
        reveal_strlit("0");
        reveal_strlit("1");
        reveal_strlit("2");
        reveal_strlit("3");
        reveal_strlit("4");
        reveal_strlit("5");
        reveal_strlit("6");
        reveal_strlit("7");
        reveal_strlit("8");
        reveal_strlit("9");
        reveal_strlit("a");
        reveal_strlit("b");
        reveal_strlit("c");
        reveal_strlit("d");
        reveal_strlit("e");
        reveal_strlit("f");
    }
    match d {
        0 => "0",
        1 => "1",
        2 => "2",
        3 => "3",
        4 => "4",
        5 => "5",
        6 => "6",
        7 => "7",
        8 => "8",
        9 => "9",
        10 => "a",
        11 => "b",
        12 => "c",
        13 => "d",
        14 => "e",
        _ => "f",
    }
}

/// `n` as 16 lower-case hexadecimal digits.
pub fn hex16_string(n: u64) -> (r: String)
    ensures
        r@ == hex16(n),
{
    let mut r = String::new();
    let mut i: u64 = 0;
    while i < 16
        invariant
            i <= 16,
            r@ == hex16(n).subrange(0, i as int),
        decreases 16 - i,
    {
        let shift: u64 = 60 - 4 * i;
        let d: u64 = (n >> shift) & 15;
        assert(d < 16) by (bit_vector)
            requires
                d == (n >> shift) & 15,
        ;
        r.append(hex_str(d));
        assert(r@ =~= hex16(n).subrange(0, i + 1)) by {
            assert(hex16(n)[i as int] == hex_digit(d));
        }
        i = i + 1;
    }
    r
}

impl StateVector {
    /// A vector made now by `source_node`.
    pub fn new(data_bits: Vec<u64>, source_node: &str, severity_bits: u64, entropy_bits: u64) -> (v: Self)
        ensures
            v.vector_id@ == vector_id_of(source_node@, v.timestamp),
            v.data_bits@ == data_bits@,
            v.source_node@ == source_node@,
            v.severity_bits == severity_bits,
            v.entropy_bits == entropy_bits,
    {
        StateVector::made_at(data_bits, source_node, severity_bits, entropy_bits, unix_now_secs())
    }

    /// A vector made at `timestamp` by `source_node`.
    pub fn made_at(
        data_bits: Vec<u64>,
        source_node: &str,
        severity_bits: u64,
        entropy_bits: u64,
        timestamp: u64,
    ) -> (v: Self)
        ensures
            v.vector_id@ == vector_id_of(source_node@, timestamp),
            v.data_bits@ == data_bits@,
            v.timestamp == timestamp,
            v.source_node@ == source_node@,
            v.severity_bits == severity_bits,
            v.entropy_bits == entropy_bits,
    {
        let id = concat_str(&concat_str(&concat_str("vec_", source_node), "_"), decimal_string(
            timestamp,
        ).as_str());
        StateVector {
            vector_id: id,
            data_bits,
            timestamp,
            source_node: String::from_str(source_node),
            severity_bits,
            entropy_bits,
        }
    }

    /// The hash of the vector, as 16 hexadecimal digits.
    pub fn get_hash(&self) -> (h: String)
        ensures
            h@ == vector_hash(self@),
    {
        let mut hash: u64 = 0;
        let mut i: usize = 0;
        while i < self.data_bits.len()
            invariant
                i <= self.data_bits@.len(),
                hash == mul_fold(0, self.data_bits@.subrange(0, i as int)),
            decreases self.data_bits@.len() - i,
        {
            assert(self.data_bits@.subrange(0, i + 1).drop_last() =~= self.data_bits@.subrange(0, i as int));
            hash = hash.wrapping_mul(self.data_bits[i]);
            i = i + 1;
        }
        assert(self.data_bits@.subrange(0, i as int) =~= self.data_bits@);
        hash = hash ^ self.timestamp;
        hash = hash ^ self.severity_bits;
        hash = hash ^ self.entropy_bits;
        hex16_string(hash)
    }

    /// A copy of this vector.
    pub fn copy(&self) -> (v: Self)
        ensures
            v@ == self@,
    {
        StateVector {
            vector_id: self.vector_id.clone(),
            data_bits: self.data_bits.clone(),
            timestamp: self.timestamp,
            source_node: self.source_node.clone(),
            severity_bits: self.severity_bits,
            entropy_bits: self.entropy_bits,
        }
    }
}

/// The product kept by the hash starts at zero and so stays zero: a vector's
/// hash depends on its timestamp, severity and entropy alone.
pub proof fn law_hash_ignores_components(s: Seq<u64>)
    ensures
        mul_fold(0, s) == 0,
    decreases s.len(),
{
    if s.len() > 0 {
        law_hash_ignores_components(s.drop_last());
        let x = s.last();
        assert(0u64.wrapping_mul(x) == 0) by (bit_vector);
    }
}

/// What a threat signature says.
pub struct SignatureView {
    pub signature_id: Seq<char>,
    pub threat_type: Seq<char>,
    pub severity: ThreatSeverity,
    pub signature_data: Seq<u8>,
    pub affected_nodes: Seq<Seq<char>>,
    pub timestamp: u64,
    pub expiration: u64,
}

impl View for ThreatSignature {
    type V = SignatureView;

    open spec fn view(&self) -> SignatureView {
        SignatureView {
            signature_id: self.signature_id@,
            threat_type: self.threat_type@,
            severity: self.severity,
            signature_data: self.signature_data@,
            affected_nodes: views(self.affected_nodes@),
            timestamp: self.timestamp,
            expiration: self.expiration,
        }
    }
}

impl ThreatSignature {
    /// A copy of this signature.
    pub fn copy(&self) -> (t: Self)
        ensures
            t@ == self@,
    {
        ThreatSignature {
            signature_id: self.signature_id.clone(),
            threat_type: self.threat_type.clone(),
            severity: self.severity,
            signature_data: self.signature_data.clone(),
            affected_nodes: copy_strings(&self.affected_nodes),
            timestamp: self.timestamp,
            expiration: self.expiration,
        }
    }
}

/// Records known by an identifier.
pub trait Keyed {
    spec fn key(&self) -> Seq<char>;
}

impl Keyed for NodeView {
    open spec fn key(&self) -> Seq<char> {
        self.node_id
    }
}

impl Keyed for VectorView {
    open spec fn key(&self) -> Seq<char> {
        self.vector_id
    }
}

impl Keyed for SignatureView {
    open spec fn key(&self) -> Seq<char> {
        self.signature_id
    }
}

/// The position of the record with identifier `k`.
pub open spec fn record_index<T: Keyed>(s: Seq<T>, k: Seq<char>) -> Option<int> {
    if exists|i: int| 0 <= i < s.len() && s[i].key() == k {
        Some(choose|i: int| 0 <= i < s.len() && s[i].key() == k)
    } else {
        None
    }
}

/// No identifier occurs twice.
pub open spec fn keys_distinct<T: Keyed>(s: Seq<T>) -> bool {
    forall|i: int, j: int| 0 <= i < j < s.len() ==> s[i].key() != s[j].key()
}

/// The records with `x` stored: in place of the record with its identifier,
/// or last.
pub open spec fn upsert<T: Keyed>(s: Seq<T>, x: T) -> Seq<T> {
    match record_index(s, x.key()) {
        Some(i) => s.update(i, x),
        None => s.push(x),
    }
}

/// The records with each of `xs` stored in turn.
pub open spec fn upsert_all<T: Keyed>(s: Seq<T>, xs: Seq<T>) -> Seq<T>
    decreases xs.len(),
{
    if xs.len() == 0 {
        s
    } else {
        upsert(upsert_all(s, xs.drop_last()), xs.last())
    }
}

/// The records without the one with identifier `k`.
pub open spec fn without_key<T: Keyed>(s: Seq<T>, k: Seq<char>) -> Seq<T> {
    match record_index(s, k) {
        Some(i) => s.remove(i),
        None => s,
    }
}

proof fn lemma_record_index<T: Keyed>(s: Seq<T>, i: int)
    requires
        keys_distinct(s),
        0 <= i < s.len(),
    ensures
        record_index(s, s[i].key()) == Some(i),
{
    let k = s[i].key();
    assert(0 <= i < s.len() && s[i].key() == k);
    let j = choose|j: int| 0 <= j < s.len() && s[j].key() == k;
    if j < i {
        assert(s[j].key() != s[i].key());
    } else if i < j {
        assert(s[i].key() != s[j].key());
    }
}

proof fn lemma_upsert<T: Keyed>(s: Seq<T>, x: T)
    requires
        keys_distinct(s),
    ensures
        keys_distinct(upsert(s, x)),
        record_index(upsert(s, x), x.key()) is Some,
        upsert(s, x)[record_index(upsert(s, x), x.key())->0] == x,
{
    let u = upsert(s, x);
    match record_index(s, x.key()) {
        Some(i) => {
            assert forall|a: int, b: int| 0 <= a < b < u.len() implies u[a].key() != u[b].key() by {
                if a == i {
                    assert(s[i].key() == x.key());
                } else if b == i {
                    assert(s[i].key() == x.key());
                }
            }
            lemma_record_index(u, i);
        },
        None => {
            assert forall|a: int, b: int| 0 <= a < b < u.len() implies u[a].key() != u[b].key() by {
                if b == s.len() {
                    assert(u[a] == s[a]);
                }
            }
            lemma_record_index(u, s.len() as int);
        },
    }
}

proof fn lemma_upsert_all<T: Keyed>(s: Seq<T>, xs: Seq<T>)
    requires
        keys_distinct(s),
    ensures
        keys_distinct(upsert_all(s, xs)),
    decreases xs.len(),
{
    if xs.len() > 0 {
        lemma_upsert_all(s, xs.drop_last());
        lemma_upsert(upsert_all(s, xs.drop_last()), xs.last());
    }
}

proof fn lemma_without_key<T: Keyed>(s: Seq<T>, k: Seq<char>)
    requires
        keys_distinct(s),
    ensures
        keys_distinct(without_key(s, k)),
        record_index(without_key(s, k), k) is None,
{
    let w = without_key(s, k);
    match record_index(s, k) {
        Some(i) => {
            assert(s[i].key() == k);
            assert forall|a: int, b: int| 0 <= a < b < w.len() implies w[a].key() != w[b].key() by {
                let a0 = if a < i { a } else { a + 1 };
                let b0 = if b < i { b } else { b + 1 };
                assert(w[a] == s[a0] && w[b] == s[b0]);
            }
            if exists|j: int| 0 <= j < w.len() && w[j].key() == k {
                let j = choose|j: int| 0 <= j < w.len() && w[j].key() == k;
                let j0 = if j < i { j } else { j + 1 };
                assert(w[j] == s[j0]);
                if j0 < i {
                    assert(s[j0].key() != s[i].key());
                } else {
                    assert(s[i].key() != s[j0].key());
                }
            }
        },
        None => {},
    }
}

/// Gossip protocol configuration.
#[derive(Debug, Clone)]
pub struct GossipConfig {
    pub node_id: String,
    pub bind_address: SocketAddress,
    pub broadcast_address: SocketAddress,
    pub multicast_address: Option<SocketAddress>,
    pub port: u16,
    /// Seconds between heartbeats.
    pub heartbeat_interval: u64,
    /// Seconds between gossip rounds.
    pub gossip_interval: u64,
    /// Seconds after which a silent peer is no longer counted.
    pub timeout: u64,
    pub max_peers: usize,
    /// Time to live of multicast messages.
    pub ttl: u8,
}

impl Default for GossipConfig {
    fn default() -> (c: Self)
        ensures
            c.node_id@ == "ccze_node_1"@,
            c.bind_address == (SocketAddress::V4 { ip: 0, port: 54321 }),
            c.broadcast_address == (SocketAddress::V4 { ip: 0xffff_ffff, port: 54321 }),
            c.multicast_address == Some(SocketAddress::V4 { ip: 0xeffffffa, port: 54321 }),
            c.port == 54321,
            c.heartbeat_interval == 30,
            c.gossip_interval == 60,
            c.timeout == 120,
            c.max_peers == 100,
            c.ttl == 3,
    {
        GossipConfig {
            node_id: String::from_str("ccze_node_1"),
            bind_address: SocketAddress::V4 { ip: 0, port: 54321 },
            broadcast_address: SocketAddress::V4 { ip: 0xffff_ffff, port: 54321 },
            multicast_address: Some(SocketAddress::V4 { ip: 0xeffffffa, port: 54321 }),
            port: 54321,
            heartbeat_interval: 30,
            gossip_interval: 60,
            timeout: 120,
            max_peers: 100,
            ttl: 3,
        }
    }
}

/// What a received message carried, once its payload was decoded for its type.
#[derive(Debug)]
pub enum GossipPayload {
    /// No payload, or one that did not decode.
    Undecoded,
    /// A state vector (`StateVector` messages).
    Vector(StateVector),
    /// A threat signature (`ThreatAlert` messages).
    Signature(ThreatSignature),
    /// A peer record (`NodeJoin` messages).
    Node(GossipNode),
    /// State vectors (`StateResponse` messages).
    Vectors(Vec<StateVector>),
}

/// The state vectors a message brings.
pub open spec fn received_vectors(t: GossipMessageType, p: GossipPayload) -> Seq<VectorView> {
    match (t, p) {
        (GossipMessageType::StateVector, GossipPayload::Vector(v)) => seq![v@],
        (GossipMessageType::StateResponse, GossipPayload::Vectors(vs)) => vs@.map_values(
            |v: StateVector| v@,
        ),
        _ => Seq::empty(),
    }
}

/// The threat signatures a message brings.
pub open spec fn received_signatures(t: GossipMessageType, p: GossipPayload) -> Seq<SignatureView> {
    match (t, p) {
        (GossipMessageType::ThreatAlert, GossipPayload::Signature(s)) => seq![s@],
        _ => Seq::empty(),
    }
}

/// The peers after a message from `id`, sent from `sender`, arrived at `now`:
/// the sender is seen (a new one is recorded with version `unknown`), then a
/// join records the announced peer and a leave forgets the sender.
pub open spec fn peers_after(
    nodes: Seq<NodeView>,
    id: Seq<char>,
    sender: SocketAddress,
    t: GossipMessageType,
    p: GossipPayload,
    now: u64,
) -> Seq<NodeView> {
    let seen = match record_index(nodes, id) {
        Some(i) => nodes.update(i, NodeView { last_seen: now, ..nodes[i] }),
        None => nodes.push(node_seen(id, sender, "unknown"@, now)),
    };
    match (t, p) {
        (GossipMessageType::NodeJoin, GossipPayload::Node(n)) => upsert(seen, n@),
        (GossipMessageType::NodeLeave, _) => without_key(seen, id),
        _ => seen,
    }
}

/// The peers alive at `now` for a timeout, in order.
pub open spec fn alive_nodes(s: Seq<NodeView>, now: u64, timeout: u64) -> Seq<NodeView>
    decreases s.len(),
{
    if s.len() == 0 {
        s
    } else {
        let r = alive_nodes(s.drop_last(), now, timeout);
        if node_alive(s.last().last_seen, now, timeout) {
            r.push(s.last())
        } else {
            r
        }
    }
}

/// The signatures of a type (any type when `kind` is `None`) not expired at
/// `now`, in order.
pub open spec fn live_signatures(s: Seq<SignatureView>, kind: Option<Seq<char>>, now: u64) -> Seq<SignatureView>
    decreases s.len(),
{
    if s.len() == 0 {
        s
    } else {
        let r = live_signatures(s.drop_last(), kind, now);
        let x = s.last();
        if now <= x.expiration && (kind is None || kind == Some(x.threat_type)) {
            r.push(x)
        } else {
            r
        }
    }
}

/// The critical signatures not expired at `now`.
pub open spec fn critical_signatures(s: Seq<SignatureView>, now: u64) -> nat
    decreases s.len(),
{
    if s.len() == 0 {
        0
    } else {
        critical_signatures(s.drop_last(), now) + if s.last().severity == ThreatSeverity::Critical
            && now <= s.last().expiration {
            1nat
        } else {
            0nat
        }
    }
}

/// The timeout that peers are held to at `now`: `now` less the configured
/// timeout, and zero before the timeout has passed since the epoch.
pub open spec fn liveness_window(now: u64, timeout: u64) -> u64 {
    if now >= timeout {
        (now - timeout) as u64
    } else {
        0
    }
}

/// The addresses of the peers not at `own`, in order.
pub open spec fn peer_addresses(s: Seq<NodeView>, own: SocketAddress) -> Seq<SocketAddress>
    decreases s.len(),
{
    if s.len() == 0 {
        Seq::empty()
    } else {
        let r = peer_addresses(s.drop_last(), own);
        if s.last().address != own {
            r.push(s.last().address)
        } else {
            r
        }
    }
}

/// A node's view of the gossip network: its peers, the state vectors and
/// threat signatures it knows, and its message counter.
#[derive(Debug)]
pub struct GossipManager {
    config: GossipConfig,
    nodes: Vec<GossipNode>,
    state_vectors: Vec<StateVector>,
    threat_signatures: Vec<ThreatSignature>,
    sequence_number: u64,
    running: bool,
}

impl GossipManager {
    pub closed spec fn spec_config(&self) -> GossipConfig {
        self.config
    }

    /// The peers, in the order they were first recorded.
    pub closed spec fn nodes(&self) -> Seq<NodeView> {
        self.nodes@.map_values(|n: GossipNode| n@)
    }

    /// The state vectors, in the order they were first recorded.
    pub closed spec fn vectors(&self) -> Seq<VectorView> {
        self.state_vectors@.map_values(|v: StateVector| v@)
    }

    /// The threat signatures, in the order they were first recorded.
    pub closed spec fn signatures(&self) -> Seq<SignatureView> {
        self.threat_signatures@.map_values(|t: ThreatSignature| t@)
    }

    pub closed spec fn spec_sequence(&self) -> u64 {
        self.sequence_number
    }

    pub closed spec fn spec_running(&self) -> bool {
        self.running
    }

    /// Each identifier is held once.
    pub open spec fn wf(&self) -> bool {
        &&& keys_distinct(self.nodes())
        &&& keys_distinct(self.vectors())
        &&& keys_distinct(self.signatures())
    }

    /// A manager that knows nothing yet and is not running.
    pub fn new(config: GossipConfig) -> (m: Self)
        ensures
            m.wf(),
            m.spec_config() == config,
            m.nodes().len() == 0,
            m.vectors().len() == 0,
            m.signatures().len() == 0,
            m.spec_sequence() == 0,
            !m.spec_running(),
    {
        let m = GossipManager {
            config,
            nodes: Vec::new(),
            state_vectors: Vec::new(),
            threat_signatures: Vec::new(),
            sequence_number: 0,
            running: false,
        };
        assert(m.nodes() =~= Seq::<NodeView>::empty());
        assert(m.vectors() =~= Seq::<VectorView>::empty());
        assert(m.signatures() =~= Seq::<SignatureView>::empty());
        m
    }

    /// The configuration.
    pub fn config(&self) -> (c: &GossipConfig)
        ensures
            *c == self.spec_config(),
    {
        &self.config
    }

    /// The number of messages stamped so far.
    pub fn sequence_number(&self) -> (n: u64)
        ensures
            n == self.spec_sequence(),
    {
        self.sequence_number
    }

    /// Whether the protocol runs.
    pub fn is_running(&self) -> (b: bool)
        ensures
            b == self.spec_running(),
    {
        self.running
    }

    /// Marks the protocol as running or stopped.
    pub fn set_running(&mut self, running: bool)
        ensures
            final(self).spec_running() == running,
            final(self).spec_config() == old(self).spec_config(),
            final(self).nodes() == old(self).nodes(),
            final(self).vectors() == old(self).vectors(),
            final(self).signatures() == old(self).signatures(),
            final(self).spec_sequence() == old(self).spec_sequence(),
    {
        self.running = running;
    }

    fn node_slot(&self, id: &str) -> (r: Option<usize>)
        requires
            self.wf(),
        ensures
            match r {
                Some(i) => record_index(self.nodes(), id@) == Some(i as int),
                None => record_index(self.nodes(), id@) is None,
            },
    {
        let mut i: usize = 0;
        while i < self.nodes.len()
            invariant
                i <= self.nodes@.len(),
                self.wf(),
                forall|j: int| 0 <= j < i ==> (#[trigger] self.nodes@[j]).node_id@ != id@,
            decreases self.nodes@.len() - i,
        {
            if crate::parser::same_text(self.nodes[i].node_id.as_str(), id) {
                proof {
                    assert(self.nodes()[i as int].key() == id@);
                    lemma_record_index(self.nodes(), i as int);
                }
                return Some(i);
            }
            i = i + 1;
        }
        proof {
            if exists|j: int| 0 <= j < self.nodes().len() && self.nodes()[j].key() == id@ {
                let j = choose|j: int| 0 <= j < self.nodes().len() && self.nodes()[j].key() == id@;
                assert(self.nodes@[j].node_id@ == id@);
            }
        }
        None
    }

    fn vector_slot(&self, id: &str) -> (r: Option<usize>)
        requires
            self.wf(),
        ensures
            match r {
                Some(i) => record_index(self.vectors(), id@) == Some(i as int),
                None => record_index(self.vectors(), id@) is None,
            },
    {
        let mut i: usize = 0;
        while i < self.state_vectors.len()
            invariant
                i <= self.state_vectors@.len(),
                self.wf(),
                forall|j: int| 0 <= j < i ==> (#[trigger] self.state_vectors@[j]).vector_id@ != id@,
            decreases self.state_vectors@.len() - i,
        {
            if crate::parser::same_text(self.state_vectors[i].vector_id.as_str(), id) {
                proof {
                    assert(self.vectors()[i as int].key() == id@);
                    lemma_record_index(self.vectors(), i as int);
                }
                return Some(i);
            }
            i = i + 1;
        }
        proof {
            if exists|j: int| 0 <= j < self.vectors().len() && self.vectors()[j].key() == id@ {
                let j = choose|j: int| 0 <= j < self.vectors().len() && self.vectors()[j].key() == id@;
                assert(self.state_vectors@[j].vector_id@ == id@);
            }
        }
        None
    }

    fn put_node(&mut self, n: GossipNode)
        requires
            old(self).wf(),
        ensures
            final(self).wf(),
            final(self).nodes() == upsert(old(self).nodes(), n@),
            final(self).vectors() == old(self).vectors(),
            final(self).signatures() == old(self).signatures(),
            final(self).spec_config() == old(self).spec_config(),
            final(self).spec_sequence() == old(self).spec_sequence(),
            final(self).spec_running() == old(self).spec_running(),
    {
        let ghost before = self.nodes@;
        let ghost v = n@;
        proof {
            lemma_upsert(self.nodes(), n@);
        }
        match self.node_slot(n.node_id.as_str()) {
            Some(i) => {
                self.nodes.set(i, n);
                assert(self.nodes() =~= before.map_values(|n: GossipNode| n@).update(i as int, v));
            },
            None => {
                self.nodes.push(n);
                assert(self.nodes() =~= before.map_values(|n: GossipNode| n@).push(v));
            },
        }
    }

    fn put_vector(&mut self, x: StateVector)
        requires
            old(self).wf(),
        ensures
            final(self).wf(),
            final(self).vectors() == upsert(old(self).vectors(), x@),
            final(self).nodes() == old(self).nodes(),
            final(self).signatures() == old(self).signatures(),
            final(self).spec_config() == old(self).spec_config(),
            final(self).spec_sequence() == old(self).spec_sequence(),
            final(self).spec_running() == old(self).spec_running(),
    {
        let ghost before = self.state_vectors@;
        let ghost v = x@;
        proof {
            lemma_upsert(self.vectors(), x@);
        }
        match self.vector_slot(x.vector_id.as_str()) {
            Some(i) => {
                self.state_vectors.set(i, x);
                assert(self.vectors() =~= before.map_values(|v: StateVector| v@).update(i as int, v));
            },
            None => {
                self.state_vectors.push(x);
                assert(self.vectors() =~= before.map_values(|v: StateVector| v@).push(v));
            },
        }
    }

    fn put_signature(&mut self, x: ThreatSignature)
        requires
            old(self).wf(),
        ensures
            final(self).wf(),
            final(self).signatures() == upsert(old(self).signatures(), x@),
            final(self).nodes() == old(self).nodes(),
            final(self).vectors() == old(self).vectors(),
            final(self).spec_config() == old(self).spec_config(),
            final(self).spec_sequence() == old(self).spec_sequence(),
            final(self).spec_running() == old(self).spec_running(),
    {
        let ghost before = self.threat_signatures@;
        let ghost v = x@;
        proof {
            lemma_upsert(self.signatures(), x@);
        }
        match self.signature_slot(x.signature_id.as_str()) {
            Some(i) => {
                self.threat_signatures.set(i, x);
                assert(self.signatures() =~= before.map_values(|t: ThreatSignature| t@).update(
                    i as int,
                    v,
                ));
            },
            None => {
                self.threat_signatures.push(x);
                assert(self.signatures() =~= before.map_values(|t: ThreatSignature| t@).push(v));
            },
        }
    }

    /// Records that the peer `id`, sending from `sender`, was seen at `now`.
    fn see_node(&mut self, id: &str, sender: SocketAddress, now: u64)
        requires
            old(self).wf(),
        ensures
            final(self).wf(),
            final(self).nodes() == match record_index(old(self).nodes(), id@) {
                Some(i) => old(self).nodes().update(i, NodeView { last_seen: now, ..old(self).nodes()[i] }),
                None => old(self).nodes().push(node_seen(id@, sender, "unknown"@, now)),
            },
            final(self).vectors() == old(self).vectors(),
            final(self).signatures() == old(self).signatures(),
            final(self).spec_config() == old(self).spec_config(),
            final(self).spec_sequence() == old(self).spec_sequence(),
            final(self).spec_running() == old(self).spec_running(),
    {
        match self.node_slot(id) {
            Some(i) => {
                let mut n = self.nodes[i].copy();
                n.last_seen = now;
                proof {
                    assert(n@ == NodeView { last_seen: now, ..self.nodes()[i as int] });
                    lemma_upsert(self.nodes(), n@);
                    assert(upsert(self.nodes(), n@) == self.nodes().update(i as int, n@));
                }
                self.put_node(n);
            },
            None => {
                let n = GossipNode::seen_at(String::from_str(id), sender, "unknown", now);
                proof {
                    assert(n@.key() == id@);
                }
                self.put_node(n);
            },
        }
    }

    /// Forgets the peer `id`.
    fn drop_node(&mut self, id: &str)
        requires
            old(self).wf(),
        ensures
            final(self).wf(),
            final(self).nodes() == without_key(old(self).nodes(), id@),
            final(self).vectors() == old(self).vectors(),
            final(self).signatures() == old(self).signatures(),
            final(self).spec_config() == old(self).spec_config(),
            final(self).spec_sequence() == old(self).spec_sequence(),
            final(self).spec_running() == old(self).spec_running(),
    {
        proof {
            lemma_without_key(self.nodes(), id@);
        }
        match self.node_slot(id) {
            Some(i) => {
                let ghost before = self.nodes@;
                self.nodes.remove(i);
                assert(self.nodes() =~= before.map_values(|n: GossipNode| n@).remove(i as int));
            },
            None => {},
        }
    }

    /// Records the local node, bound to the configured address, as seen at `now`.
    pub fn register_self_at(&mut self, now: u64)
        requires
            old(self).wf(),
        ensures
            final(self).wf(),
            final(self).nodes() == upsert(
                old(self).nodes(),
                node_seen(old(self).spec_config().node_id@, old(self).spec_config().bind_address, "ccze-rs"@, now),
            ),
            final(self).vectors() == old(self).vectors(),
            final(self).signatures() == old(self).signatures(),
            final(self).spec_config() == old(self).spec_config(),
            final(self).spec_sequence() == old(self).spec_sequence(),
            final(self).spec_running() == old(self).spec_running(),
    {
        let n = GossipNode::seen_at(self.config.node_id.clone(), self.config.bind_address, "ccze-rs", now);
        self.put_node(n);
    }

    /// Takes in a message from `sender` received at `now`, its payload decoded
    /// for its type: the sender is seen; a state vector, a threat signature or
    /// the state vectors of a response are stored, replacing those with the
    /// same identifier; a join records the announced peer; a leave forgets the
    /// sender.
    pub fn handle_message_at(
        &mut self,
        message: &GossipMessage,
        sender: SocketAddress,
        payload: GossipPayload,
        now: u64,
    )
        requires
            old(self).wf(),
        ensures
            final(self).wf(),
            final(self).nodes() == peers_after(
                old(self).nodes(),
                message.node_id@,
                sender,
                message.message_type,
                payload,
                now,
            ),
            final(self).vectors() == upsert_all(
                old(self).vectors(),
                received_vectors(message.message_type, payload),
            ),
            final(self).signatures() == upsert_all(
                old(self).signatures(),
                received_signatures(message.message_type, payload),
            ),
            final(self).spec_config() == old(self).spec_config(),
            final(self).spec_sequence() == old(self).spec_sequence(),
            final(self).spec_running() == old(self).spec_running(),
    {
        let ghost vs0 = self.vectors();
        let ghost ss0 = self.signatures();
        self.see_node(message.node_id.as_str(), sender, now);
        let ghost seen = self.nodes();
        proof {
            assert(upsert_all(vs0, Seq::<VectorView>::empty()) == vs0);
            assert(upsert_all(ss0, Seq::<SignatureView>::empty()) == ss0);
        }
        match message.message_type {
            GossipMessageType::StateVector => {
                match payload {
                    GossipPayload::Vector(v) => {
                        proof {
                            let xs = seq![v@];
                            assert(xs.drop_last() =~= Seq::<VectorView>::empty());
                        }
                        self.put_vector(v);
                    },
                    _ => {},
                }
            },
            GossipMessageType::ThreatAlert => {
                match payload {
                    GossipPayload::Signature(t) => {
                        proof {
                            let xs = seq![t@];
                            assert(xs.drop_last() =~= Seq::<SignatureView>::empty());
                        }
                        self.put_signature(t);
                    },
                    _ => {},
                }
            },
            GossipMessageType::NodeJoin => {
                match payload {
                    GossipPayload::Node(n) => {
                        self.put_node(n);
                    },
                    _ => {},
                }
            },
            GossipMessageType::NodeLeave => {
                self.drop_node(message.node_id.as_str());
            },
            GossipMessageType::StateResponse => {
                match payload {
                    GossipPayload::Vectors(vs) => {
                        let ghost xs = vs@.map_values(|v: StateVector| v@);
                        let mut i: usize = 0;
                        while i < vs.len()
                            invariant
                                i <= vs@.len(),
                                xs == vs@.map_values(|v: StateVector| v@),
                                self.wf(),
                                self.vectors() == upsert_all(vs0, xs.subrange(0, i as int)),
                                self.nodes() == seen,
                                self.signatures() == ss0,
                                self.spec_config() == old(self).spec_config(),
                                self.spec_sequence() == old(self).spec_sequence(),
                                self.spec_running() == old(self).spec_running(),
                            decreases vs@.len() - i,
                        {
                            proof {
                                assert(xs.subrange(0, i + 1).drop_last() =~= xs.subrange(0, i as int));
                                assert(xs.subrange(0, i + 1).last() == vs@[i as int]@);
                            }
                            self.put_vector(vs[i].copy());
                            i = i + 1;
                        }
                        assert(xs.subrange(0, i as int) =~= xs);
                    },
                    _ => {},
                }
            },
            _ => {},
        }
    }

    /// Takes in a message from `sender` received now: `handle_message_at` at
    /// the clock reading, which nothing here fixes. Only the time at which the
    /// sender is seen depends on it.
    pub fn handle_message(&mut self, message: &GossipMessage, sender: SocketAddress, payload: GossipPayload)
        requires
            old(self).wf(),
        ensures
            final(self).wf(),
            exists|now: u64|
                #[trigger] peers_after(
                    old(self).nodes(),
                    message.node_id@,
                    sender,
                    message.message_type,
                    payload,
                    now,
                ) == final(self).nodes(),
            final(self).vectors() == upsert_all(
                old(self).vectors(),
                received_vectors(message.message_type, payload),
            ),
            final(self).signatures() == upsert_all(
                old(self).signatures(),
                received_signatures(message.message_type, payload),
            ),
            final(self).spec_config() == old(self).spec_config(),
            final(self).spec_sequence() == old(self).spec_sequence(),
            final(self).spec_running() == old(self).spec_running(),
    {
        let now = unix_now_secs();
        let ghost nodes0 = self.nodes();
        let ghost p = payload;
        self.handle_message_at(message, sender, payload, now);
        assert(peers_after(nodes0, message.node_id@, sender, message.message_type, p, now) == self.nodes());
    }

    /// A message of the given type from this node, stamped with the next
    /// sequence number; the caller adds the payload.
    pub fn next_message(&mut self, message_type: GossipMessageType) -> (m: GossipMessage)
        requires
            old(self).spec_sequence() < u64::MAX,
        ensures
            m.message_type == message_type,
            m.node_id@ == old(self).spec_config().node_id@,
            m.sequence_number == old(self).spec_sequence(),
            m.payload@.len() == 0,
            final(self).spec_sequence() == old(self).spec_sequence() + 1,
            final(self).nodes() == old(self).nodes(),
            final(self).vectors() == old(self).vectors(),
            final(self).signatures() == old(self).signatures(),
            final(self).spec_config() == old(self).spec_config(),
            final(self).spec_running() == old(self).spec_running(),
    {
        let mut m = GossipMessage::new(message_type, self.config.node_id.as_str());
        m.sequence_number = self.sequence_number;
        self.sequence_number = self.sequence_number + 1;
        m
    }

    /// Stores a state vector; when connected, also the message that announces
    /// it (its payload is the caller's encoding of the vector).
    pub fn share_state_vector(&mut self, vector: StateVector, connected: bool) -> (r: Option<GossipMessage>)
        requires
            old(self).wf(),
            connected ==> old(self).spec_sequence() < u64::MAX,
        ensures
            final(self).wf(),
            final(self).vectors() == upsert(old(self).vectors(), vector@),
            final(self).nodes() == old(self).nodes(),
            final(self).signatures() == old(self).signatures(),
            final(self).spec_config() == old(self).spec_config(),
            connected ==> (r matches Some(m) && m.message_type == GossipMessageType::StateVector
                && m.node_id@ == old(self).spec_config().node_id@ && m.sequence_number
                == old(self).spec_sequence() && final(self).spec_sequence() == old(self).spec_sequence() + 1),
            !connected ==> r is None && final(self).spec_sequence() == old(self).spec_sequence(),
    {
        self.put_vector(vector);
        if connected {
            Some(self.next_message(GossipMessageType::StateVector))
        } else {
            None
        }
    }

    /// Stores a threat signature; when connected, also the message that
    /// announces it (its payload is the caller's encoding of the signature).
    pub fn share_threat_signature(&mut self, signature: ThreatSignature, connected: bool) -> (r: Option<
        GossipMessage,
    >)
        requires
            old(self).wf(),
            connected ==> old(self).spec_sequence() < u64::MAX,
        ensures
            final(self).wf(),
            final(self).signatures() == upsert(old(self).signatures(), signature@),
            final(self).nodes() == old(self).nodes(),
            final(self).vectors() == old(self).vectors(),
            final(self).spec_config() == old(self).spec_config(),
            connected ==> (r matches Some(m) && m.message_type == GossipMessageType::ThreatAlert
                && m.node_id@ == old(self).spec_config().node_id@ && m.sequence_number
                == old(self).spec_sequence() && final(self).spec_sequence() == old(self).spec_sequence() + 1),
            !connected ==> r is None && final(self).spec_sequence() == old(self).spec_sequence(),
    {
        self.put_signature(signature);
        if connected {
            Some(self.next_message(GossipMessageType::ThreatAlert))
        } else {
            None
        }
    }

    /// Copies of the peers alive at `now`: those seen at most `now` less the
    /// configured timeout seconds before `now`.
    pub fn get_nodes_at(&self, now: u64) -> (r: Vec<GossipNode>)
        ensures
            r@.map_values(|n: GossipNode| n@) == alive_nodes(
                self.nodes(),
                now,
                liveness_window(now, self.spec_config().timeout),
            ),
    {
        let window = if now >= self.config.timeout {
            now - self.config.timeout
        } else {
            0
        };
        let mut r: Vec<GossipNode> = Vec::new();
        let mut i: usize = 0;
        while i < self.nodes.len()
            invariant
                i <= self.nodes@.len(),
                window == liveness_window(now, self.config.timeout),
                r@.map_values(|n: GossipNode| n@) == alive_nodes(
                    self.nodes().subrange(0, i as int),
                    now,
                    window,
                ),
            decreases self.nodes@.len() - i,
        {
            let ghost before = r@;
            proof {
                let sub = self.nodes().subrange(0, i + 1);
                assert(sub.drop_last() =~= self.nodes().subrange(0, i as int));
                assert(sub.last() == self.nodes@[i as int]@);
            }
            if self.nodes[i].is_alive_at(now, window) {
                r.push(self.nodes[i].copy());
                assert(r@.map_values(|n: GossipNode| n@) =~= before.map_values(|n: GossipNode| n@).push(
                    self.nodes@[i as int]@,
                ));
            }
            i = i + 1;
        }
        assert(self.nodes().subrange(0, i as int) =~= self.nodes());
        r
    }

    /// Copies of the peers alive now: `get_nodes_at` at the clock reading,
    /// which nothing here fixes.
    pub fn get_nodes(&self) -> (r: Vec<GossipNode>)
        ensures
            exists|now: u64|
                #[trigger] alive_nodes(
                    self.nodes(),
                    now,
                    liveness_window(now, self.spec_config().timeout),
                ) == r@.map_values(|n: GossipNode| n@),
    {
        let now = unix_now_secs();
        let r = self.get_nodes_at(now);
        assert(alive_nodes(self.nodes(), now, liveness_window(now, self.spec_config().timeout))
            == r@.map_values(|n: GossipNode| n@));
        r
    }

    /// Copies of the state vectors.
    pub fn get_state_vectors(&self) -> (r: Vec<StateVector>)
        ensures
            r@.map_values(|v: StateVector| v@) == self.vectors(),
    {
        let mut r: Vec<StateVector> = Vec::new();
        let mut i: usize = 0;
        while i < self.state_vectors.len()
            invariant
                i <= self.state_vectors@.len(),
                r@.map_values(|v: StateVector| v@) == self.vectors().subrange(0, i as int),
            decreases self.state_vectors@.len() - i,
        {
            let ghost before = r@;
            r.push(self.state_vectors[i].copy());
            assert(r@.map_values(|v: StateVector| v@) =~= before.map_values(|v: StateVector| v@).push(
                self.state_vectors@[i as int]@,
            ));
            assert(self.vectors().subrange(0, i + 1) =~= self.vectors().subrange(0, i as int).push(
                self.state_vectors@[i as int]@,
            ));
            i = i + 1;
        }
        assert(self.vectors().subrange(0, i as int) =~= self.vectors());
        r
    }

    /// Copies of the signatures of a type (any type for `None`) that have not
    /// expired by `now`.
    fn live_signatures_at(&self, kind: Option<&str>, now: u64) -> (r: Vec<ThreatSignature>)
        ensures
            r@.map_values(|t: ThreatSignature| t@) == live_signatures(
                self.signatures(),
                match kind {
                    Some(k) => Some(k@),
                    None => None,
                },
                now,
            ),
    {
        let ghost want = match kind {
            Some(k) => Some(k@),
            None => None::<Seq<char>>,
        };
        let mut r: Vec<ThreatSignature> = Vec::new();
        let mut i: usize = 0;
        while i < self.threat_signatures.len()
            invariant
                i <= self.threat_signatures@.len(),
                want == match kind {
                    Some(k) => Some(k@),
                    None => None::<Seq<char>>,
                },
                r@.map_values(|t: ThreatSignature| t@) == live_signatures(
                    self.signatures().subrange(0, i as int),
                    want,
                    now,
                ),
            decreases self.threat_signatures@.len() - i,
        {
            let ghost before = r@;
            proof {
                let sub = self.signatures().subrange(0, i + 1);
                assert(sub.drop_last() =~= self.signatures().subrange(0, i as int));
                assert(sub.last() == self.threat_signatures@[i as int]@);
            }
            let t = &self.threat_signatures[i];
            let of_kind = match kind {
                Some(k) => crate::parser::same_text(t.threat_type.as_str(), k),
                None => true,
            };
            if !t.is_expired_at(now) && of_kind {
                r.push(t.copy());
                assert(r@.map_values(|t: ThreatSignature| t@) =~= before.map_values(
                    |t: ThreatSignature| t@,
                ).push(self.threat_signatures@[i as int]@));
            }
            i = i + 1;
        }
        assert(self.signatures().subrange(0, i as int) =~= self.signatures());
        r
    }

    /// Copies of the signatures that have not expired by `now`.
    pub fn get_threat_signatures_at(&self, now: u64) -> (r: Vec<ThreatSignature>)
        ensures
            r@.map_values(|t: ThreatSignature| t@) == live_signatures(self.signatures(), None, now),
    {
        self.live_signatures_at(None, now)
    }

    /// Copies of the signatures that have not expired: `get_threat_signatures_at`
    /// at the clock reading, which nothing here fixes.
    pub fn get_threat_signatures(&self) -> (r: Vec<ThreatSignature>)
        ensures
            exists|now: u64|
                #[trigger] live_signatures(self.signatures(), None, now)
                    == r@.map_values(|t: ThreatSignature| t@),
    {
        let now = unix_now_secs();
        let r = self.get_threat_signatures_at(now);
        assert(live_signatures(self.signatures(), None, now) == r@.map_values(
            |t: ThreatSignature| t@,
        ));
        r
    }

    /// Copies of the signatures of a threat type that have not expired by `now`.
    pub fn get_threat_signatures_by_type_at(&self, threat_type: &str, now: u64) -> (r: Vec<
        ThreatSignature,
    >)
        ensures
            r@.map_values(|t: ThreatSignature| t@) == live_signatures(
                self.signatures(),
                Some(threat_type@),
                now,
            ),
    {
        self.live_signatures_at(Some(threat_type), now)
    }

    /// Copies of the signatures of a threat type that have not expired:
    /// `get_threat_signatures_by_type_at` at the clock reading, which nothing
    /// here fixes.
    pub fn get_threat_signatures_by_type(&self, threat_type: &str) -> (r: Vec<ThreatSignature>)
        ensures
            exists|now: u64|
                #[trigger] live_signatures(self.signatures(), Some(threat_type@), now)
                    == r@.map_values(|t: ThreatSignature| t@),
    {
        let now = unix_now_secs();
        let r = self.get_threat_signatures_by_type_at(threat_type, now);
        assert(live_signatures(self.signatures(), Some(threat_type@), now) == r@.map_values(
            |t: ThreatSignature| t@,
        ));
        r
    }

    /// The statistics of the network as seen at `now`.
    pub fn get_stats_at(&self, now: u64) -> (st: GossipStats)
        ensures
            st.node_id@ == self.spec_config().node_id@,
            st.total_nodes == self.nodes().len(),
            st.active_nodes == alive_nodes(
                self.nodes(),
                now,
                liveness_window(now, self.spec_config().timeout),
            ).len(),
            st.total_state_vectors == self.vectors().len(),
            st.total_threat_signatures == self.signatures().len(),
            st.critical_threat_signatures == critical_signatures(self.signatures(), now),
            st.running == self.spec_running(),
    {
        let active = self.get_nodes_at(now).len();
        let mut critical: usize = 0;
        let mut i: usize = 0;
        while i < self.threat_signatures.len()
            invariant
                i <= self.threat_signatures@.len(),
                critical == critical_signatures(self.signatures().subrange(0, i as int), now),
                critical <= i,
            decreases self.threat_signatures@.len() - i,
        {
            proof {
                let sub = self.signatures().subrange(0, i + 1);
                assert(sub.drop_last() =~= self.signatures().subrange(0, i as int));
                assert(sub.last() == self.threat_signatures@[i as int]@);
            }
            let t = &self.threat_signatures[i];
            if t.severity == ThreatSeverity::Critical && !t.is_expired_at(now) {
                critical = critical + 1;
            }
            i = i + 1;
        }
        assert(self.signatures().subrange(0, i as int) =~= self.signatures());
        proof {
            assert(active == alive_nodes(
                self.nodes(),
                now,
                liveness_window(now, self.spec_config().timeout),
            ).len());
        }
        GossipStats {
            node_id: self.config.node_id.clone(),
            total_nodes: self.nodes.len(),
            active_nodes: active,
            total_state_vectors: self.state_vectors.len(),
            total_threat_signatures: self.threat_signatures.len(),
            critical_threat_signatures: critical,
            running: self.running,
        }
    }

    /// The statistics of the network now.
    pub fn get_stats(&self) -> (st: GossipStats)
        ensures
            st.node_id@ == self.spec_config().node_id@,
            st.total_nodes == self.nodes().len(),
            st.total_state_vectors == self.vectors().len(),
            st.total_threat_signatures == self.signatures().len(),
            st.running == self.spec_running(),
    {
        self.get_stats_at(unix_now_secs())
    }

    /// The addresses of the peers other than this node's own bind address, in order.
    pub fn broadcast_peers(&self) -> (r: Vec<SocketAddress>)
        ensures
            r@ == peer_addresses(self.nodes(), self.spec_config().bind_address),
    {
        let mut r: Vec<SocketAddress> = Vec::new();
        let mut i: usize = 0;
        while i < self.nodes.len()
            invariant
                i <= self.nodes@.len(),
                r@ == peer_addresses(self.nodes().subrange(0, i as int), self.config.bind_address),
            decreases self.nodes@.len() - i,
        {
            proof {
                let sub = self.nodes().subrange(0, i + 1);
                assert(sub.drop_last() =~= self.nodes().subrange(0, i as int));
                assert(sub.last() == self.nodes@[i as int]@);
            }
            if self.nodes[i].address != self.config.bind_address {
                r.push(self.nodes[i].address);
            }
            i = i + 1;
        }
        assert(self.nodes().subrange(0, i as int) =~= self.nodes());
        r
    }

    /// Copies of the state vectors a gossip round sends: the first five.
    pub fn vectors_to_broadcast(&self) -> (r: Vec<StateVector>)
        ensures
            r@.map_values(|v: StateVector| v@) == self.vectors().take(
                if self.vectors().len() < 5 {
                    self.vectors().len() as int
                } else {
                    5
                },
            ),
    {
        let all = self.get_state_vectors();
        let n = if all.len() < 5 {
            all.len()
        } else {
            5
        };
        let mut r: Vec<StateVector> = Vec::new();
        let mut i: usize = 0;
        while i < n
            invariant
                i <= n <= all@.len(),
                all@.map_values(|v: StateVector| v@) == self.vectors(),
                r@.map_values(|v: StateVector| v@) == self.vectors().take(i as int),
            decreases n - i,
        {
            let ghost before = r@;
            r.push(all[i].copy());
            assert(r@.map_values(|v: StateVector| v@) =~= before.map_values(|v: StateVector| v@).push(
                all@[i as int]@,
            ));
            assert(self.vectors().take(i + 1) =~= self.vectors().take(i as int).push(all@[i as int]@));
            i = i + 1;
        }
        r
    }

    fn signature_slot(&self, id: &str) -> (r: Option<usize>)
        requires
            self.wf(),
        ensures
            match r {
                Some(i) => record_index(self.signatures(), id@) == Some(i as int),
                None => record_index(self.signatures(), id@) is None,
            },
    {
        let mut i: usize = 0;
        while i < self.threat_signatures.len()
            invariant
                i <= self.threat_signatures@.len(),
                self.wf(),
                forall|j: int| 0 <= j < i ==> (#[trigger] self.threat_signatures@[j]).signature_id@ != id@,
            decreases self.threat_signatures@.len() - i,
        {
            if crate::parser::same_text(self.threat_signatures[i].signature_id.as_str(), id) {
                proof {
                    assert(self.signatures()[i as int].key() == id@);
                    lemma_record_index(self.signatures(), i as int);
                }
                return Some(i);
            }
            i = i + 1;
        }
        proof {
            if exists|j: int| 0 <= j < self.signatures().len() && self.signatures()[j].key() == id@ {
                let j = choose|j: int|
                    0 <= j < self.signatures().len() && self.signatures()[j].key() == id@;
                assert(self.threat_signatures@[j].signature_id@ == id@);
            }
        }
        None
    }
}

proof fn lemma_live_contains(s: Seq<SignatureView>, i: int, now: u64)
    requires
        0 <= i < s.len(),
        now <= s[i].expiration,
    ensures
        live_signatures(s, None, now).contains(s[i]),
    decreases s.len(),
{
    let r = live_signatures(s.drop_last(), None, now);
    if i == s.len() - 1 {
        assert(live_signatures(s, None, now) == r.push(s.last()));
        assert(live_signatures(s, None, now)[r.len() as int] == s[i]);
    } else {
        lemma_live_contains(s.drop_last(), i, now);
        let k = choose|k: int| 0 <= k < r.len() && r[k] == s.drop_last()[i];
        if now <= s.last().expiration {
            assert(live_signatures(s, None, now)[k] == s[i]);
        } else {
            assert(live_signatures(s, None, now)[k] == s[i]);
        }
    }
}

/// The peers once the sender of a message is seen.
proof fn lemma_seen_is_upsert(nodes: Seq<NodeView>, id: Seq<char>, sender: SocketAddress, now: u64)
    requires
        keys_distinct(nodes),
    ensures
        ({
            let seen = match record_index(nodes, id) {
                Some(i) => nodes.update(i, NodeView { last_seen: now, ..nodes[i] }),
                None => nodes.push(node_seen(id, sender, "unknown"@, now)),
            };
            &&& keys_distinct(seen)
            &&& record_index(seen, id) is Some
            &&& seen[record_index(seen, id)->0].last_seen == now
        }),
{
    match record_index(nodes, id) {
        Some(i) => {
            let y = NodeView { last_seen: now, ..nodes[i] };
            assert(nodes[i].key() == id);
            lemma_upsert(nodes, y);
        },
        None => {
            lemma_upsert(nodes, node_seen(id, sender, "unknown"@, now));
        },
    }
}

/// A threat signature that arrives in an alert is listed among the live
/// signatures until it expires.
pub proof fn law_received_signature_is_listed(sigs: Seq<SignatureView>, x: SignatureView, now: u64)
    requires
        keys_distinct(sigs),
        now <= x.expiration,
    ensures
        live_signatures(upsert_all(sigs, seq![x]), None, now).contains(x),
{
    assert(seq![x].drop_last() =~= Seq::<SignatureView>::empty());
    assert(upsert_all(sigs, Seq::<SignatureView>::empty()) == sigs);
    lemma_upsert(sigs, x);
    let u = upsert(sigs, x);
    lemma_live_contains(u, record_index(u, x.key())->0, now);
}

/// After a leave announcement its sender is no longer a peer.
pub proof fn law_leave_forgets_sender(
    nodes: Seq<NodeView>,
    id: Seq<char>,
    sender: SocketAddress,
    p: GossipPayload,
    now: u64,
)
    requires
        keys_distinct(nodes),
    ensures
        record_index(peers_after(nodes, id, sender, GossipMessageType::NodeLeave, p, now), id) is None,
{
    lemma_seen_is_upsert(nodes, id, sender, now);
    let seen = match record_index(nodes, id) {
        Some(i) => nodes.update(i, NodeView { last_seen: now, ..nodes[i] }),
        None => nodes.push(node_seen(id, sender, "unknown"@, now)),
    };
    lemma_without_key(seen, id);
}

/// Any message other than a join or a leave leaves its sender a peer last seen
/// when the message arrived.
pub proof fn law_sender_is_seen(
    nodes: Seq<NodeView>,
    id: Seq<char>,
    sender: SocketAddress,
    t: GossipMessageType,
    p: GossipPayload,
    now: u64,
)
    requires
        keys_distinct(nodes),
        t != GossipMessageType::NodeJoin,
        t != GossipMessageType::NodeLeave,
    ensures
        ({
            let after = peers_after(nodes, id, sender, t, p, now);
            &&& record_index(after, id) is Some
            &&& after[record_index(after, id)->0].last_seen == now
        }),
{
    lemma_seen_is_upsert(nodes, id, sender, now);
}

/// Storing records keeps their identifiers distinct.
pub proof fn law_store_keeps_identifiers_distinct<T: Keyed>(s: Seq<T>, xs: Seq<T>)
    requires
        keys_distinct(s),
    ensures
        keys_distinct(upsert_all(s, xs)),
{
    lemma_upsert_all(s, xs);
}

/// A signature is valid from its issue for an hour: it has not expired by any
/// time up to an hour after its issue, and has by any later time.
pub proof fn law_signature_valid_for_an_hour(timestamp: u64, now: u64)
    requires
        timestamp <= u64::MAX - 3600,
    ensures
        (now > expiry(timestamp)) == (now > timestamp + 3600),
{
}

} // verus!
