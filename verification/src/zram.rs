//! zRAM devices and pools, memory snapshots of processes and their ejection,
//! and the memory figures of a process status.
//!
//! Reading `/proc`, capturing memory and writing snapshot files are the
//! caller's, and so is the floating-point arithmetic on compression ratios,
//! which are held as IEEE 754 bit patterns.
use vstd::prelude::*;
use crate::clock::unix_now_secs;
use crate::text::{concat_str, decimal, decimal_string};
use crate::text::{
    chars_of, ends_with, ends_with_exec, lines, lines_of, parse_u64, parse_u64_exec, split_words,
    starts_with, starts_with_exec, views, words,
};

verus! {

/// Snapshot status.
#[derive(Debug, Clone, Copy, PartialEq, Eq, Structural)]
pub enum SnapshotStatus {
    /// Snapshot in progress
    Pending,
    /// Snapshot completed successfully
    Completed,
    /// Snapshot failed
    Failed,
    /// Snapshot expired and cleaned up
    Expired,
}

/// Process memory information, in bytes.
#[derive(Debug, Clone, Copy, PartialEq, Eq, Structural)]
pub struct ProcessMemoryInfo {
    /// Resident set size
    pub rss: u64,
    /// Virtual memory size
    pub virtual_memory: u64,
    /// Swap usage
    pub swap: u64,
    /// Shared memory
    pub shared: u64,
}

impl Default for ProcessMemoryInfo {
    fn default() -> (m: Self)
        ensures
            m.rss == 0 && m.virtual_memory == 0 && m.swap == 0 && m.shared == 0,
    {
        ProcessMemoryInfo { rss: 0, virtual_memory: 0, swap: 0, shared: 0 }
    }
}

/// The kilobytes of a status line such as `VmRSS:  1234 kB`, read as a `u64`:
/// the second word without a `kB` suffix when it has one (`1234kB`), else the
/// second word when the third is `kB`.
pub open spec fn memory_kb(line: Seq<char>) -> Option<u64> {
    let ws = words(line);
    if ws.len() >= 2 && ends_with(ws[1], "kB"@) {
        parse_u64(ws[1].subrange(0, ws[1].len() - 2))
    } else if ws.len() >= 3 && ws[2] == "kB"@ {
        parse_u64(ws[1])
    } else {
        None
    }
}

/// The byte count of a status line: its kilobytes times 1024.
pub open spec fn memory_value(line: Seq<char>) -> Option<u64> {
    match memory_kb(line) {
        Some(kb) => Some((kb * 1024) as u64),
        None => None,
    }
}

/// The kilobytes of a status line fit in `u64` once counted in bytes.
pub open spec fn memory_fits(line: Seq<char>) -> bool {
    memory_kb(line) matches Some(kb) ==> kb <= u64::MAX / 1024
}

/// The kilobytes of a status line.
fn memory_kb_exec(line: &str) -> (r: Option<u64>)
    ensures
        r == memory_kb(line@),
{
    let ws = split_words(line);
    let ghost wv = views(ws@);
    if ws.len() < 2 {
        return None;
    }
    assert(wv[1] == ws@[1]@);
    let w = chars_of(ws[1].as_str());
    proof {
        reveal_strlit("kB");
    }
    if ends_with_exec(w.as_slice(), chars_of("kB").as_slice()) {
        parse_u64_exec(w.as_slice(), 0, w.len() - 2)
    } else if ws.len() >= 3 && crate::parser::same_text(ws[2].as_str(), "kB") {
        assert(wv[2] == ws@[2]@);
        assert(w@.subrange(0, w@.len() as int) =~= w@);
        parse_u64_exec(w.as_slice(), 0, w.len())
    } else {
        None
    }
}

/// The byte count of a memory line of a process status.
pub fn parse_memory_value(line: &str) -> (r: Option<u64>)
    requires
        memory_fits(line@),
    ensures
        r == memory_value(line@),
{
    match memory_kb_exec(line) {
        Some(kb) => Some(kb * 1024),
        None => None,
    }
}

/// The figures a memory line sets.
pub open spec fn apply_memory_line(info: ProcessMemoryInfo, line: Seq<char>) -> ProcessMemoryInfo {
    if starts_with(line, "VmRSS:"@) {
        match memory_value(line) {
            Some(v) => ProcessMemoryInfo { rss: v, ..info },
            None => info,
        }
    } else if starts_with(line, "VmSize:"@) {
        match memory_value(line) {
            Some(v) => ProcessMemoryInfo { virtual_memory: v, ..info },
            None => info,
        }
    } else if starts_with(line, "VmSwap:"@) {
        match memory_value(line) {
            Some(v) => ProcessMemoryInfo { swap: v, ..info },
            None => info,
        }
    } else {
        info
    }
}

/// The figures of a process status, each set by the last line that gives it.
pub open spec fn memory_info_of(ls: Seq<Seq<char>>) -> ProcessMemoryInfo
    decreases ls.len(),
{
    if ls.len() == 0 {
        ProcessMemoryInfo { rss: 0, virtual_memory: 0, swap: 0, shared: 0 }
    } else {
        apply_memory_line(memory_info_of(ls.drop_last()), ls.last())
    }
}

/// A memory line is one the status figures are read from.
pub open spec fn is_memory_line(line: Seq<char>) -> bool {
    starts_with(line, "VmRSS:"@) || starts_with(line, "VmSize:"@) || starts_with(line, "VmSwap:"@)
}

/// Every memory line of the status has a byte count that fits in `u64`.
pub open spec fn status_fits(status: Seq<char>) -> bool {
    forall|i: int|
        0 <= i < lines(status).len() && is_memory_line(#[trigger] lines(status)[i]) ==> memory_fits(
            lines(status)[i],
        )
}

/// Whether every memory line of a status has a byte count that fits in `u64`.
pub fn memory_values_fit(status: &str) -> (b: bool)
    ensures
        b == status_fits(status@),
{
    let ls = lines_of(status);
    let ghost lv = views(ls@);
    let mut i: usize = 0;
    while i < ls.len()
        invariant
            i <= ls@.len(),
            lv == views(ls@),
            lv == lines(status@),
            forall|j: int| 0 <= j < i && is_memory_line(#[trigger] lv[j]) ==> memory_fits(lv[j]),
        decreases ls@.len() - i,
    {
        assert(lv[i as int] == ls@[i as int]@);
        let lc = chars_of(ls[i].as_str());
        if starts_with_exec(lc.as_slice(), chars_of("VmRSS:").as_slice()) || starts_with_exec(
            lc.as_slice(),
            chars_of("VmSize:").as_slice(),
        ) || starts_with_exec(lc.as_slice(), chars_of("VmSwap:").as_slice()) {
            match memory_kb_exec(ls[i].as_str()) {
                Some(kb) => {
                    if kb > u64::MAX / 1024 {
                        return false;
                    }
                },
                None => {},
            }
        }
        i = i + 1;
    }
    true
}

/// The memory figures of a process status (the text of `/proc/<pid>/status`).
pub fn process_memory_info(status: &str) -> (m: ProcessMemoryInfo)
    requires
        status_fits(status@),
    ensures
        m == memory_info_of(lines(status@)),
{
    let ls = lines_of(status);
    let ghost lv = views(ls@);
    let mut info = ProcessMemoryInfo { rss: 0, virtual_memory: 0, swap: 0, shared: 0 };
    let mut i: usize = 0;
    while i < ls.len()
        invariant
            i <= ls@.len(),
            lv == views(ls@),
            lv == lines(status@),
            status_fits(status@),
            info == memory_info_of(lv.subrange(0, i as int)),
        decreases ls@.len() - i,
    {
        assert(lv.subrange(0, i + 1).drop_last() =~= lv.subrange(0, i as int));
        assert(lv[i as int] == ls@[i as int]@);
        let lc = chars_of(ls[i].as_str());
        if starts_with_exec(lc.as_slice(), chars_of("VmRSS:").as_slice()) {
            assert(is_memory_line(lv[i as int]));
            match parse_memory_value(ls[i].as_str()) {
                Some(v) => {
                    info.rss = v;
                },
                None => {},
            }
        } else if starts_with_exec(lc.as_slice(), chars_of("VmSize:").as_slice()) {
            assert(is_memory_line(lv[i as int]));
            match parse_memory_value(ls[i].as_str()) {
                Some(v) => {
                    info.virtual_memory = v;
                },
                None => {},
            }
        } else if starts_with_exec(lc.as_slice(), chars_of("VmSwap:").as_slice()) {
            assert(is_memory_line(lv[i as int]));
            match parse_memory_value(ls[i].as_str()) {
                Some(v) => {
                    info.swap = v;
                },
                None => {},
            }
        }
        i = i + 1;
    }
    assert(lv.subrange(0, i as int) =~= lv);
    info
}

/// The bit pattern of the compression ratio 1.0.
pub const UNIT_RATIO_BITS: u64 = 0x3ff0_0000_0000_0000;

/// A zRAM device.
#[derive(Debug, Clone)]
pub struct ZramDevice {
    pub device_path: String,
    pub device_number: u32,
    /// Size in bytes.
    pub size: u64,
    /// Used space in bytes.
    pub used: u64,
    /// Current compression ratio, as the bits of an IEEE 754 double.
    pub compression_ratio_bits: u64,
    /// Compression algorithm (e.g., "zstd", "lzo", "lz4").
    pub algorithm: String,
}

/// The path of zRAM device `n`.
pub open spec fn device_path_of(n: u32) -> Seq<char> {
    "/dev/zram"@ + decimal(n as nat)
}

/// What a device record says.
pub struct DeviceView {
    pub device_path: Seq<char>,
    pub device_number: u32,
    pub size: u64,
    pub used: u64,
    pub compression_ratio_bits: u64,
    pub algorithm: Seq<char>,
}

impl View for ZramDevice {
    type V = DeviceView;

    open spec fn view(&self) -> DeviceView {
        DeviceView {
            device_path: self.device_path@,
            device_number: self.device_number,
            size: self.size,
            used: self.used,
            compression_ratio_bits: self.compression_ratio_bits,
            algorithm: self.algorithm@,
        }
    }
}

impl ZramDevice {
    /// An unused device with ratio 1.0.
    pub fn new(device_number: u32, size: u64, algorithm: &str) -> (d: Self)
        ensures
            d@ == (DeviceView {
                device_path: device_path_of(device_number),
                device_number,
                size,
                used: 0,
                compression_ratio_bits: UNIT_RATIO_BITS,
                algorithm: algorithm@,
            }),
    {
        ZramDevice {
            device_path: concat_str("/dev/zram", decimal_string(device_number as u64).as_str()),
            device_number,
            size,
            used: 0,
            compression_ratio_bits: UNIT_RATIO_BITS,
            algorithm: String::from_str(algorithm),
        }
    }

    /// The compression ratio's bits: those of 1.0 while the device is unused.
    pub fn get_compression_ratio(&self) -> (r: u64)
        ensures
            r == if self.used == 0 {
                UNIT_RATIO_BITS
            } else {
                self.compression_ratio_bits
            },
    {
        if self.used == 0 {
            UNIT_RATIO_BITS
        } else {
            self.compression_ratio_bits
        }
    }

    /// A copy of this record.
    pub fn copy(&self) -> (d: Self)
        ensures
            d@ == self@,
    {
        ZramDevice {
            device_path: self.device_path.clone(),
            device_number: self.device_number,
            size: self.size,
            used: self.used,
            compression_ratio_bits: self.compression_ratio_bits,
            algorithm: self.algorithm.clone(),
        }
    }
}

/// A memory snapshot of a process.
#[derive(Debug, Clone)]
pub struct MemorySnapshot {
    pub pid: u32,
    pub timestamp: u64,
    pub snapshot_id: String,
    pub device: ZramDevice,
    /// Original process memory size.
    pub original_memory_size: u64,
    /// Compressed size in zRAM.
    pub compressed_size: u64,
    pub status: SnapshotStatus,
    pub reason: String,
}

/// What a snapshot record says.
pub struct SnapshotView {
    pub pid: u32,
    pub timestamp: u64,
    pub snapshot_id: Seq<char>,
    pub device: DeviceView,
    pub original_memory_size: u64,
    pub compressed_size: u64,
    pub status: SnapshotStatus,
    pub reason: Seq<char>,
}

impl View for MemorySnapshot {
    type V = SnapshotView;

    open spec fn view(&self) -> SnapshotView {
        SnapshotView {
            pid: self.pid,
            timestamp: self.timestamp,
            snapshot_id: self.snapshot_id@,
            device: self.device@,
            original_memory_size: self.original_memory_size,
            compressed_size: self.compressed_size,
            status: self.status,
            reason: self.reason@,
        }
    }
}

/// The identifier of a snapshot of `pid` taken at `timestamp`.
pub open spec fn snapshot_id_of(pid: u32, timestamp: u64) -> Seq<char> {
    "snapshot_"@ + decimal(pid as nat) + "_"@ + decimal(timestamp as nat)
}

/// A pending snapshot of `pid` on `device` taken at `timestamp`.
pub open spec fn pending_snapshot(pid: u32, device: DeviceView, reason: Seq<char>, timestamp: u64) -> SnapshotView {
    SnapshotView {
        pid,
        timestamp,
        snapshot_id: snapshot_id_of(pid, timestamp),
        device,
        original_memory_size: 0,
        compressed_size: 0,
        status: SnapshotStatus::Pending,
        reason,
    }
}

impl MemorySnapshot {
    /// A pending snapshot of `pid` on `device`, taken now.
    pub fn new(pid: u32, device: ZramDevice, reason: &str) -> (s: Self)
        ensures
            s@ == pending_snapshot(pid, device@, reason@, s.timestamp),
    {
        MemorySnapshot::taken_at(pid, device, reason, unix_now_secs())
    }

    /// A pending snapshot of `pid` on `device`, taken at `timestamp`.
    pub fn taken_at(pid: u32, device: ZramDevice, reason: &str, timestamp: u64) -> (s: Self)
        ensures
            s@ == pending_snapshot(pid, device@, reason@, timestamp),
    {
        let id = concat_str(
            &concat_str(&concat_str("snapshot_", decimal_string(pid as u64).as_str()), "_"),
            decimal_string(timestamp).as_str(),
        );
        MemorySnapshot {
            pid,
            timestamp,
            snapshot_id: id,
            device,
            original_memory_size: 0,
            compressed_size: 0,
            status: SnapshotStatus::Pending,
            reason: String::from_str(reason),
        }
    }

    /// A copy of this record.
    pub fn copy(&self) -> (s: Self)
        ensures
            s@ == self@,
    {
        MemorySnapshot {
            pid: self.pid,
            timestamp: self.timestamp,
            snapshot_id: self.snapshot_id.clone(),
            device: self.device.copy(),
            original_memory_size: self.original_memory_size,
            compressed_size: self.compressed_size,
            status: self.status,
            reason: self.reason.clone(),
        }
    }
}

/// zRAM pool configuration.
#[derive(Debug, Clone)]
pub struct ZramPoolConfig {
    pub devices: Vec<ZramDevice>,
    pub default_device: u32,
    /// Maximum snapshot size in bytes.
    pub max_snapshot_size: u64,
    /// How long to keep snapshots, in hours.
    pub retention_hours: u64,
    pub compression_algorithm: String,
    pub enabled: bool,
}

impl Default for ZramPoolConfig {
    fn default() -> (c: Self)
        ensures
            c.devices@.len() == 1,
            c.devices@[0]@ == (DeviceView {
                device_path: device_path_of(0),
                device_number: 0,
                size: 34359738368,
                used: 0,
                compression_ratio_bits: UNIT_RATIO_BITS,
                algorithm: "zstd"@,
            }),
            c.default_device == 0,
            c.max_snapshot_size == 4294967296,
            c.retention_hours == 24,
            c.compression_algorithm@ == "zstd"@,
            c.enabled,
    {
        let mut devices: Vec<ZramDevice> = Vec::new();
        devices.push(ZramDevice::new(0, 34359738368, "zstd"));
        ZramPoolConfig {
            devices,
            default_device: 0,
            max_snapshot_size: 4294967296,
            retention_hours: 24,
            compression_algorithm: String::from_str("zstd"),
            enabled: true,
        }
    }
}

/// A snapshot taken at `timestamp` has expired at `now` once more than the
/// retention period has passed.
pub open spec fn snapshot_expired(now: u64, timestamp: u64, retention_hours: u64) -> bool {
    now > timestamp + retention_hours * 3600
}

/// The snapshots that have not expired at `now`, in order.
pub open spec fn retained(s: Seq<SnapshotView>, now: u64, retention_hours: u64) -> Seq<SnapshotView>
    decreases s.len(),
{
    if s.len() == 0 {
        s
    } else {
        let r = retained(s.drop_last(), now, retention_hours);
        if snapshot_expired(now, s.last().timestamp, retention_hours) {
            r
        } else {
            r.push(s.last())
        }
    }
}

/// The position of the snapshot with an identifier.
pub open spec fn snapshot_index(s: Seq<SnapshotView>, id: Seq<char>) -> Option<int> {
    if exists|i: int| 0 <= i < s.len() && s[i].snapshot_id == id {
        Some(choose|i: int| 0 <= i < s.len() && s[i].snapshot_id == id)
    } else {
        None
    }
}

/// No snapshot identifier occurs twice.
pub open spec fn snapshot_ids_distinct(s: Seq<SnapshotView>) -> bool {
    forall|i: int, j: int| 0 <= i < j < s.len() ==> s[i].snapshot_id != s[j].snapshot_id
}

/// The snapshots with `x` stored in place of the one with its identifier, or last.
pub open spec fn store_snapshot(s: Seq<SnapshotView>, x: SnapshotView) -> Seq<SnapshotView> {
    match snapshot_index(s, x.snapshot_id) {
        Some(i) => s.update(i, x),
        None => s.push(x),
    }
}

proof fn lemma_snapshot_index(s: Seq<SnapshotView>, i: int)
    requires
        snapshot_ids_distinct(s),
        0 <= i < s.len(),
    ensures
        snapshot_index(s, s[i].snapshot_id) == Some(i),
{
    let k = s[i].snapshot_id;
    assert(0 <= i < s.len() && s[i].snapshot_id == k);
    let j = choose|j: int| 0 <= j < s.len() && s[j].snapshot_id == k;
    if j < i {
        assert(s[j].snapshot_id != s[i].snapshot_id);
    } else if i < j {
        assert(s[i].snapshot_id != s[j].snapshot_id);
    }
}

proof fn lemma_retained_distinct(s: Seq<SnapshotView>, now: u64, h: u64)
    requires
        snapshot_ids_distinct(s),
    ensures
        snapshot_ids_distinct(retained(s, now, h)),
        forall|k: int|
            0 <= k < retained(s, now, h).len() ==> exists|j: int|
                0 <= j < s.len() && s[j] == #[trigger] retained(s, now, h)[k],
    decreases s.len(),
{
    if s.len() > 0 {
        let t = s.drop_last();
        assert forall|a: int, b: int| 0 <= a < b < t.len() implies t[a].snapshot_id != t[b].snapshot_id by {
            assert(t[a] == s[a] && t[b] == s[b]);
        }
        lemma_retained_distinct(t, now, h);
        let r = retained(t, now, h);
        assert forall|k: int| 0 <= k < r.len() implies exists|j: int|
            0 <= j < s.len() && s[j] == #[trigger] r[k] by {
            let j = choose|j: int| 0 <= j < t.len() && t[j] == r[k];
            assert(s[j] == r[k]);
        }
        if !snapshot_expired(now, s.last().timestamp, h) {
            let u = r.push(s.last());
            assert forall|a: int, b: int| 0 <= a < b < u.len() implies u[a].snapshot_id != u[b].snapshot_id by {
                if b == r.len() {
                    let j = choose|j: int| 0 <= j < t.len() && t[j] == r[a];
                    assert(s[j] == u[a]);
                    assert(s[j].snapshot_id != s[s.len() - 1].snapshot_id);
                } else {
                    assert(u[a] == r[a] && u[b] == r[b]);
                }
            }
            assert forall|k: int| 0 <= k < u.len() implies exists|j: int|
                0 <= j < s.len() && s[j] == #[trigger] u[k] by {
                if k == r.len() {
                    assert(s[s.len() - 1] == u[k]);
                } else {
                    assert(u[k] == r[k]);
                }
            }
        }
    }
}

/// zRAM memory ejection manager: a pool of devices used in turn and the
/// snapshots taken on them.
#[derive(Debug)]
pub struct ZramManager {
    config: ZramPoolConfig,
    snapshots: Vec<MemorySnapshot>,
    current_device_index: usize,
}

impl ZramManager {
    pub closed spec fn spec_config(&self) -> ZramPoolConfig {
        self.config
    }

    /// The pool's devices.
    pub closed spec fn devices(&self) -> Seq<DeviceView> {
        self.config.devices@.map_values(|d: ZramDevice| d@)
    }

    /// The device used next.
    pub closed spec fn spec_index(&self) -> usize {
        self.current_device_index
    }

    /// The snapshots, in the order they were first stored.
    pub closed spec fn snapshots(&self) -> Seq<SnapshotView> {
        self.snapshots@.map_values(|s: MemorySnapshot| s@)
    }

    /// The next device is in the pool, and snapshot identifiers are distinct.
    pub open spec fn wf(&self) -> bool {
        &&& (self.devices().len() == 0 || self.spec_index() < self.devices().len())
        &&& snapshot_ids_distinct(self.snapshots())
    }

    /// A manager of the configured pool, without snapshots, that uses the
    /// first device next.
    pub fn new(config: ZramPoolConfig) -> (m: Self)
        ensures
            m.wf(),
            m.spec_config() == config,
            m.devices() == config.devices@.map_values(|d: ZramDevice| d@),
            m.spec_index() == 0,
            m.snapshots().len() == 0,
    {
        let m = ZramManager { config, snapshots: Vec::new(), current_device_index: 0 };
        assert(m.snapshots() =~= Seq::<SnapshotView>::empty());
        m
    }

    /// The configuration.
    pub fn config(&self) -> (c: &ZramPoolConfig)
        ensures
            *c == self.spec_config(),
    {
        &self.config
    }

    /// A copy of the next device of the pool, which then moves on round-robin;
    /// `None` for an empty pool.
    pub fn get_next_device(&mut self) -> (r: Option<ZramDevice>)
        requires
            old(self).wf(),
        ensures
            final(self).wf(),
            old(self).devices().len() == 0 ==> r is None && final(self).spec_index() == old(self).spec_index(),
            old(self).devices().len() > 0 ==> (r matches Some(d) && d@ == old(self).devices()[old(self).spec_index() as int]
                && final(self).spec_index() == (old(self).spec_index() + 1) % (old(self).devices().len() as int)),
            final(self).devices() == old(self).devices(),
            final(self).snapshots() == old(self).snapshots(),
            final(self).spec_config() == old(self).spec_config(),
    {
        let n = self.config.devices.len();
        if n == 0 {
            return None;
        }
        let i = self.current_device_index;
        let d = self.config.devices[i].copy();
        self.current_device_index = (i + 1) % n;
        Some(d)
    }

    /// A copy of the device with a number, the first if several have it.
    pub fn get_device(&self, device_number: u32) -> (r: Option<ZramDevice>)
        ensures
            match r {
                Some(d) => exists|i: int|
                    0 <= i < self.devices().len() && self.devices()[i] == d@ && d.device_number == device_number
                        && forall|j: int| 0 <= j < i ==> self.devices()[j].device_number != device_number,
                None => forall|j: int| 0 <= j < self.devices().len() ==> self.devices()[j].device_number != device_number,
            },
    {
        let mut i: usize = 0;
        while i < self.config.devices.len()
            invariant
                i <= self.config.devices@.len(),
                forall|j: int| 0 <= j < i ==> self.devices()[j].device_number != device_number,
            decreases self.config.devices@.len() - i,
        {
            if self.config.devices[i].device_number == device_number {
                let d = self.config.devices[i].copy();
                assert(self.devices()[i as int] == d@);
                return Some(d);
            }
            i = i + 1;
        }
        None
    }

    fn snapshot_slot(&self, id: &str) -> (r: Option<usize>)
        requires
            self.wf(),
        ensures
            match r {
                Some(i) => snapshot_index(self.snapshots(), id@) == Some(i as int),
                None => snapshot_index(self.snapshots(), id@) is None,
            },
    {
        let mut i: usize = 0;
        while i < self.snapshots.len()
            invariant
                i <= self.snapshots@.len(),
                self.wf(),
                forall|j: int| 0 <= j < i ==> (#[trigger] self.snapshots@[j]).snapshot_id@ != id@,
            decreases self.snapshots@.len() - i,
        {
            if crate::parser::same_text(self.snapshots[i].snapshot_id.as_str(), id) {
                proof {
                    lemma_snapshot_index(self.snapshots(), i as int);
                }
                return Some(i);
            }
            i = i + 1;
        }
        proof {
            if exists|j: int| 0 <= j < self.snapshots().len() && self.snapshots()[j].snapshot_id == id@ {
                let j = choose|j: int|
                    0 <= j < self.snapshots().len() && self.snapshots()[j].snapshot_id == id@;
                assert(self.snapshots@[j].snapshot_id@ == id@);
            }
        }
        None
    }

    /// Starts a snapshot of `pid` at `timestamp` on the next device; refused
    /// when snapshots are disabled or the pool is empty.
    pub fn begin_snapshot_at(&mut self, pid: u32, reason: &str, timestamp: u64) -> (r: Result<MemorySnapshot, String>)
        requires
            old(self).wf(),
        ensures
            final(self).wf(),
            final(self).devices() == old(self).devices(),
            final(self).snapshots() == old(self).snapshots(),
            final(self).spec_config() == old(self).spec_config(),
            !old(self).spec_config().enabled ==> (r matches Err(e) && e@ == "zRAM snapshot disabled"@
                && final(self).spec_index() == old(self).spec_index()),
            old(self).spec_config().enabled && old(self).devices().len() == 0 ==> (r matches Err(e)
                && e@ == "No zRAM devices available"@),
            old(self).spec_config().enabled && old(self).devices().len() > 0 ==> (r matches Ok(s) && s@
                == pending_snapshot(pid, old(self).devices()[old(self).spec_index() as int], reason@, timestamp)
                && final(self).spec_index() == (old(self).spec_index() + 1) % (old(self).devices().len() as int)),
    {
        if !self.config.enabled {
            return Err(String::from_str("zRAM snapshot disabled"));
        }
        match self.get_next_device() {
            None => Err(String::from_str("No zRAM devices available")),
            Some(d) => Ok(MemorySnapshot::taken_at(pid, d, reason, timestamp)),
        }
    }

    /// Finishes a snapshot whose sizes the caller filled in: one larger than
    /// the configured maximum is refused; otherwise it is completed and
    /// stored, replacing one with the same identifier.
    pub fn complete_snapshot(&mut self, snapshot: MemorySnapshot) -> (r: Result<MemorySnapshot, String>)
        requires
            old(self).wf(),
        ensures
            final(self).wf(),
            final(self).devices() == old(self).devices(),
            final(self).spec_index() == old(self).spec_index(),
            final(self).spec_config() == old(self).spec_config(),
            snapshot.compressed_size > old(self).spec_config().max_snapshot_size ==> (r matches Err(e) && e@
                == "Snapshot too large: "@ + decimal(snapshot.compressed_size as nat) + " > "@ + decimal(
                old(self).spec_config().max_snapshot_size as nat,
            ) && final(self).snapshots() == old(self).snapshots()),
            snapshot.compressed_size <= old(self).spec_config().max_snapshot_size ==> (r matches Ok(s) && s@
                == SnapshotView { status: SnapshotStatus::Completed, ..snapshot@ } && final(self).snapshots()
                == store_snapshot(old(self).snapshots(), s@)),
    {
        if snapshot.compressed_size > self.config.max_snapshot_size {
            let m = concat_str(
                &concat_str(
                    &concat_str("Snapshot too large: ", decimal_string(snapshot.compressed_size).as_str()),
                    " > ",
                ),
                decimal_string(self.config.max_snapshot_size).as_str(),
            );
            return Err(m);
        }
        let mut done = snapshot;
        done.status = SnapshotStatus::Completed;
        let kept = done.copy();
        let ghost v = done@;
        let ghost before = self.snapshots@;
        match self.snapshot_slot(done.snapshot_id.as_str()) {
            Some(i) => {
                self.snapshots.set(i, done);
                proof {
                    let s = self.snapshots();
                    assert(s =~= before.map_values(|s: MemorySnapshot| s@).update(i as int, v));
                    assert forall|a: int, b: int| 0 <= a < b < s.len() implies s[a].snapshot_id != s[b].snapshot_id by {
                        let o = before.map_values(|s: MemorySnapshot| s@);
                        assert(o[i as int].snapshot_id == v.snapshot_id);
                        if a != i && b != i {
                            assert(s[a] == o[a] && s[b] == o[b]);
                        } else if a == i {
                            assert(s[b] == o[b]);
                        } else {
                            assert(s[a] == o[a]);
                        }
                    }
                }
            },
            None => {
                self.snapshots.push(done);
                proof {
                    let s = self.snapshots();
                    let o = before.map_values(|s: MemorySnapshot| s@);
                    assert(s =~= o.push(v));
                    assert forall|a: int, b: int| 0 <= a < b < s.len() implies s[a].snapshot_id != s[b].snapshot_id by {
                        if b == o.len() {
                            assert(s[a] == o[a]);
                            assert(o[a].snapshot_id != v.snapshot_id);
                        } else {
                            assert(s[a] == o[a] && s[b] == o[b]);
                        }
                    }
                }
            },
        }
        Ok(kept)
    }

    /// Copies of the snapshots, in order.
    pub fn list_snapshots(&self) -> (r: Vec<MemorySnapshot>)
        ensures
            r@.map_values(|s: MemorySnapshot| s@) == self.snapshots(),
    {
        let mut r: Vec<MemorySnapshot> = Vec::new();
        let mut i: usize = 0;
        while i < self.snapshots.len()
            invariant
                i <= self.snapshots@.len(),
                r@.map_values(|s: MemorySnapshot| s@) == self.snapshots().subrange(0, i as int),
            decreases self.snapshots@.len() - i,
        {
            let ghost before = r@;
            r.push(self.snapshots[i].copy());
            assert(r@.map_values(|s: MemorySnapshot| s@) =~= before.map_values(|s: MemorySnapshot| s@).push(
                self.snapshots@[i as int]@,
            ));
            assert(self.snapshots().subrange(0, i + 1) =~= self.snapshots().subrange(0, i as int).push(
                self.snapshots@[i as int]@,
            ));
            i = i + 1;
        }
        assert(self.snapshots().subrange(0, i as int) =~= self.snapshots());
        r
    }

    /// A copy of the snapshot with an identifier.
    pub fn get_snapshot(&self, snapshot_id: &str) -> (r: Option<MemorySnapshot>)
        requires
            self.wf(),
        ensures
            match snapshot_index(self.snapshots(), snapshot_id@) {
                Some(i) => r matches Some(s) && s@ == self.snapshots()[i],
                None => r is None,
            },
    {
        match self.snapshot_slot(snapshot_id) {
            Some(i) => Some(self.snapshots[i].copy()),
            None => None,
        }
    }

    /// Drops the snapshots that have expired at `now`.
    pub fn cleanup_expired_at(&mut self, now: u64)
        requires
            old(self).wf(),
        ensures
            final(self).wf(),
            final(self).snapshots() == retained(
                old(self).snapshots(),
                now,
                old(self).spec_config().retention_hours,
            ),
            final(self).devices() == old(self).devices(),
            final(self).spec_index() == old(self).spec_index(),
            final(self).spec_config() == old(self).spec_config(),
    {
        let h = self.config.retention_hours;
        let ghost all = self.snapshots();
        let mut old_list: Vec<MemorySnapshot> = Vec::new();
        std::mem::swap(&mut old_list, &mut self.snapshots);
        let mut kept: Vec<MemorySnapshot> = Vec::new();
        let mut i: usize = 0;
        while i < old_list.len()
            invariant
                i <= old_list@.len(),
                old_list@.map_values(|s: MemorySnapshot| s@) == all,
                kept@.map_values(|s: MemorySnapshot| s@) == retained(all.subrange(0, i as int), now, h),
            decreases old_list@.len() - i,
        {
            proof {
                let sub = all.subrange(0, i + 1);
                assert(sub.drop_last() =~= all.subrange(0, i as int));
                assert(sub.last() == old_list@[i as int]@);
            }
            let t = old_list[i].timestamp;
            let expired = (now as u128) > (t as u128) + (h as u128) * 3600;
            if !expired {
                let ghost before = kept@;
                kept.push(old_list[i].copy());
                assert(kept@.map_values(|s: MemorySnapshot| s@) =~= before.map_values(
                    |s: MemorySnapshot| s@,
                ).push(old_list@[i as int]@));
            }
            i = i + 1;
        }
        assert(all.subrange(0, i as int) =~= all);
        self.snapshots = kept;
        proof {
            lemma_retained_distinct(all, now, h);
        }
    }

    /// Drops the snapshots that have expired now: `cleanup_expired_at` at the
    /// clock reading, which nothing here fixes.
    pub fn cleanup_expired(&mut self)
        requires
            old(self).wf(),
        ensures
            final(self).wf(),
            exists|now: u64|
                #[trigger] retained(old(self).snapshots(), now, old(self).spec_config().retention_hours)
                    == final(self).snapshots(),
            final(self).devices() == old(self).devices(),
            final(self).spec_index() == old(self).spec_index(),
            final(self).spec_config() == old(self).spec_config(),
    {
        let now = unix_now_secs();
        let ghost before = self.snapshots();
        let ghost h = self.spec_config().retention_hours;
        self.cleanup_expired_at(now);
        assert(retained(before, now, h) == self.snapshots());
    }

    /// The sums of the snapshots' original and compressed sizes.
    pub fn total_sizes(&self) -> (r: (u128, u128))
        ensures
            r.0 == original_total(self.snapshots()),
            r.1 == compressed_total(self.snapshots()),
    {
        let mut a: u128 = 0;
        let mut b: u128 = 0;
        let mut i: usize = 0;
        while i < self.snapshots.len()
            invariant
                i <= self.snapshots@.len(),
                a == original_total(self.snapshots().subrange(0, i as int)),
                b == compressed_total(self.snapshots().subrange(0, i as int)),
                a <= i * 0xffff_ffff_ffff_ffff,
                b <= i * 0xffff_ffff_ffff_ffff,
            decreases self.snapshots@.len() - i,
        {
            proof {
                let sub = self.snapshots().subrange(0, i + 1);
                assert(sub.drop_last() =~= self.snapshots().subrange(0, i as int));
                assert(sub.last() == self.snapshots@[i as int]@);
                assert(i < 0x1_0000_0000_0000_0000);
                assert((i + 1) * 0xffff_ffff_ffff_ffff == i * 0xffff_ffff_ffff_ffff + 0xffff_ffff_ffff_ffff)
                    by (nonlinear_arith);
                assert((i + 1) * 0xffff_ffff_ffff_ffff < 0x1_0000_0000_0000_0000_0000_0000_0000_0000)
                    by (nonlinear_arith)
                    requires
                        i < 0x1_0000_0000_0000_0000,
                ;
            }
            a = a + self.snapshots[i].original_memory_size as u128;
            b = b + self.snapshots[i].compressed_size as u128;
            i = i + 1;
        }
        assert(self.snapshots().subrange(0, i as int) =~= self.snapshots());
        (a, b)
    }
}

/// The sum of the snapshots' original sizes.
pub open spec fn original_total(s: Seq<SnapshotView>) -> int
    decreases s.len(),
{
    if s.len() == 0 {
        0
    } else {
        original_total(s.drop_last()) + s.last().original_memory_size
    }
}

/// The sum of the snapshots' compressed sizes.
pub open spec fn compressed_total(s: Seq<SnapshotView>) -> int
    decreases s.len(),
{
    if s.len() == 0 {
        0
    } else {
        compressed_total(s.drop_last()) + s.last().compressed_size
    }
}

/// Memory ejection configuration.
#[derive(Debug, Clone)]
pub struct MemoryEjectionConfig {
    pub enabled: bool,
    pub zram_config: ZramPoolConfig,
    /// Automatically trigger on critical anomalies.
    pub auto_trigger: bool,
    /// Threshold to trigger an automatic snapshot, as the bits of an IEEE 754 double.
    pub anomaly_threshold_bits: u64,
    /// Maximum number of concurrent snapshots.
    pub max_concurrent_snapshots: usize,
}

impl Default for MemoryEjectionConfig {
    fn default() -> (c: Self)
        ensures
            c.enabled,
            c.auto_trigger,
            c.anomaly_threshold_bits == 0x3fee666666666666,
            c.max_concurrent_snapshots == 10,
            c.zram_config.enabled,
            c.zram_config.retention_hours == 24,
            c.zram_config.max_snapshot_size == 4294967296,
    {
        MemoryEjectionConfig {
            enabled: true,
            zram_config: ZramPoolConfig::default(),
            auto_trigger: true,
            anomaly_threshold_bits: 0x3fee666666666666,
            max_concurrent_snapshots: 10,
        }
    }
}

/// Memory ejection manager: snapshots processes on request, up to a number of
/// snapshots held at once.
#[derive(Debug)]
pub struct MemoryEjector {
    manager: ZramManager,
    enabled: bool,
    auto_trigger: bool,
    anomaly_threshold_bits: u64,
    max_concurrent_snapshots: usize,
}

impl MemoryEjector {
    pub closed spec fn spec_manager(&self) -> ZramManager {
        self.manager
    }

    pub closed spec fn spec_enabled(&self) -> bool {
        self.enabled
    }

    pub closed spec fn spec_auto_trigger(&self) -> bool {
        self.auto_trigger
    }

    pub closed spec fn spec_limit(&self) -> usize {
        self.max_concurrent_snapshots
    }

    pub closed spec fn spec_threshold(&self) -> u64 {
        self.anomaly_threshold_bits
    }

    /// An ejector over a fresh pool of the configured devices.
    pub fn new(config: MemoryEjectionConfig) -> (e: Self)
        ensures
            e.spec_manager().wf(),
            e.spec_manager().spec_config() == config.zram_config,
            e.spec_manager().snapshots().len() == 0,
            e.spec_enabled() == config.enabled,
            e.spec_auto_trigger() == config.auto_trigger,
            e.spec_limit() == config.max_concurrent_snapshots,
            e.spec_threshold() == config.anomaly_threshold_bits,
    {
        MemoryEjector {
            manager: ZramManager::new(config.zram_config),
            enabled: config.enabled,
            auto_trigger: config.auto_trigger,
            anomaly_threshold_bits: config.anomaly_threshold_bits,
            max_concurrent_snapshots: config.max_concurrent_snapshots,
        }
    }

    /// The pool.
    pub fn manager(&self) -> (m: &ZramManager)
        ensures
            *m == self.spec_manager(),
    {
        &self.manager
    }

    /// Whether anomalies trigger snapshots by themselves.
    pub fn auto_trigger(&self) -> (b: bool)
        ensures
            b == self.spec_auto_trigger(),
    {
        self.auto_trigger
    }

    /// Whether ejection is enabled.
    pub fn is_enabled(&self) -> (b: bool)
        ensures
            b == self.spec_enabled(),
    {
        self.enabled
    }

    /// The anomaly threshold's bits.
    pub fn anomaly_threshold(&self) -> (b: u64)
        ensures
            b == self.spec_threshold(),
    {
        self.anomaly_threshold_bits
    }

    /// The most snapshots held at once.
    pub fn max_concurrent_snapshots(&self) -> (n: usize)
        ensures
            n == self.spec_limit(),
    {
        self.max_concurrent_snapshots
    }

    /// Starts ejecting the memory of `pid` at `timestamp`: refused when
    /// ejection is disabled or as many snapshots as allowed are held; else the
    /// pool starts a snapshot.
    pub fn begin_ejection_at(&mut self, pid: u32, reason: &str, timestamp: u64) -> (r: Result<MemorySnapshot, String>)
        requires
            old(self).spec_manager().wf(),
        ensures
            final(self).spec_manager().wf(),
            final(self).spec_manager().snapshots() == old(self).spec_manager().snapshots(),
            final(self).spec_manager().spec_config() == old(self).spec_manager().spec_config(),
            !old(self).spec_enabled() ==> (r matches Err(e) && e@ == "Memory ejection disabled"@),
            old(self).spec_enabled() && old(self).spec_manager().snapshots().len() >= old(self).spec_limit() ==> (r matches Err(e)
                && e@ == "Too many concurrent snapshots: "@ + decimal(
                old(self).spec_manager().snapshots().len()) + " >= "@ + decimal(old(self).spec_limit() as nat)),
            old(self).spec_enabled() && old(self).spec_manager().snapshots().len() < old(self).spec_limit() ==> (
                !old(self).spec_manager().spec_config().enabled ==> (r matches Err(e) && e@
                    == "zRAM snapshot disabled"@)),
            old(self).spec_enabled() && old(self).spec_manager().snapshots().len() < old(self).spec_limit()
                && old(self).spec_manager().spec_config().enabled && old(self).spec_manager().devices().len()
                > 0 ==> (r matches Ok(s) && s@ == pending_snapshot(
                pid,
                old(self).spec_manager().devices()[old(self).spec_manager().spec_index() as int],
                reason@,
                timestamp,
            )),
    {
        if !self.enabled {
            return Err(String::from_str("Memory ejection disabled"));
        }
        let current = self.manager.snapshots.len();
        if current >= self.max_concurrent_snapshots {
            let m = concat_str(
                &concat_str(
                    &concat_str("Too many concurrent snapshots: ", decimal_string(current as u64).as_str()),
                    " >= ",
                ),
                decimal_string(self.max_concurrent_snapshots as u64).as_str(),
            );
            return Err(m);
        }
        self.manager.begin_snapshot_at(pid, reason, timestamp)
    }

    /// Finishes an ejection whose sizes the caller filled in.
    pub fn complete_ejection(&mut self, snapshot: MemorySnapshot) -> (r: Result<MemorySnapshot, String>)
        requires
            old(self).spec_manager().wf(),
        ensures
            final(self).spec_manager().wf(),
            snapshot.compressed_size <= old(self).spec_manager().spec_config().max_snapshot_size ==> (r matches Ok(
                s,
            ) && s@ == SnapshotView { status: SnapshotStatus::Completed, ..snapshot@ }
                && final(self).spec_manager().snapshots() == store_snapshot(
                old(self).spec_manager().snapshots(),
                s@,
            )),
            snapshot.compressed_size > old(self).spec_manager().spec_config().max_snapshot_size ==> r is Err
                && final(self).spec_manager().snapshots() == old(self).spec_manager().snapshots(),
    {
        self.manager.complete_snapshot(snapshot)
    }

    /// Whether an anomaly should be ejected, given whether its severity reached
    /// the threshold: only when ejection and automatic triggering are enabled.
    pub fn should_eject(&self, severity_reached: bool) -> (b: bool)
        ensures
            b == (self.spec_enabled() && self.spec_auto_trigger() && severity_reached),
    {
        self.enabled && self.auto_trigger && severity_reached
    }
}

/// The device index after `n` requests from index `i` in a pool of `len`.
pub open spec fn after_requests(i: int, len: int, n: nat) -> int
    decreases n,
{
    if n == 0 {
        i
    } else {
        (after_requests(i, len, (n - 1) as nat) + 1) % len
    }
}

proof fn lemma_after_requests(i: int, len: int, n: nat)
    requires
        0 <= i < len,
    ensures
        after_requests(i, len, n) == (i + n) % len,
    decreases n,
{
    if n > 0 {
        lemma_after_requests(i, len, (n - 1) as nat);
        let m = i + n - 1;
        vstd::arithmetic::div_mod::lemma_add_mod_noop(m, 1, len);
        if len > 1 {
            vstd::arithmetic::div_mod::lemma_small_mod(1, len as nat);
        } else {
            assert((m % len) == 0 && ((m % len) + 1) % len == 0 && (m + 1) % len == 0);
        }
        assert(((m % len) + 1) % len == (m + 1) % len);
        assert(after_requests(i, len, (n - 1) as nat) == m % len);
        assert(after_requests(i, len, n) == (after_requests(i, len, (n - 1) as nat) + 1) % len);
        assert(i + n == m + 1);
    } else {
        vstd::arithmetic::div_mod::lemma_small_mod(i as nat, len as nat);
    }
}

/// The pool hands out its devices in turn: after as many requests as it has
/// devices, the next device is again the one it started with.
pub proof fn law_round_robin_returns(start: int, len: int)
    requires
        0 <= start < len,
    ensures
        after_requests(start, len, len as nat) == start,
{
    lemma_after_requests(start, len, len as nat);
    assert((start + len) % len == start) by (nonlinear_arith)
        requires
            0 <= start < len,
    ;
}

/// A completed snapshot is found under its identifier.
pub proof fn law_stored_snapshot_is_found(s: Seq<SnapshotView>, x: SnapshotView)
    requires
        snapshot_ids_distinct(s),
    ensures
        snapshot_index(store_snapshot(s, x), x.snapshot_id) matches Some(i) && store_snapshot(s, x)[i] == x,
{
    let u = store_snapshot(s, x);
    match snapshot_index(s, x.snapshot_id) {
        Some(i) => {
            assert forall|a: int, b: int| 0 <= a < b < u.len() implies u[a].snapshot_id != u[b].snapshot_id by {
                if a == i {
                    assert(s[i].snapshot_id == x.snapshot_id);
                } else if b == i {
                    assert(s[i].snapshot_id == x.snapshot_id);
                }
            }
            lemma_snapshot_index(u, i);
        },
        None => {
            assert forall|a: int, b: int| 0 <= a < b < u.len() implies u[a].snapshot_id != u[b].snapshot_id by {
                if b == s.len() {
                    assert(u[a] == s[a]);
                }
            }
            lemma_snapshot_index(u, s.len() as int);
        },
    }
}

} // verus!
