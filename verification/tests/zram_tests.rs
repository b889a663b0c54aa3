use ccze_rs::zram::{
    MemoryEjectionConfig, MemoryEjector, MemorySnapshot, SnapshotStatus, ZramDevice, ZramManager,
    ZramPoolConfig,
};

#[test]
fn test_zram_device_creation() {
    let device = ZramDevice::new(0, 32 * 1024 * 1024 * 1024, "zstd");

    assert_eq!(device.device_number, 0);
    assert_eq!(device.size, 32 * 1024 * 1024 * 1024);
    assert_eq!(device.algorithm, "zstd");
    assert_eq!(f64::from_bits(device.get_compression_ratio()), 1.0);
}

#[test]
fn test_memory_snapshot_creation() {
    let device = ZramDevice::new(0, 32 * 1024 * 1024 * 1024, "zstd");
    let snapshot = MemorySnapshot::new(1234, device, "test anomaly");

    assert_eq!(snapshot.pid, 1234);
    assert_eq!(snapshot.reason, "test anomaly");
    assert!(snapshot.snapshot_id.starts_with("snapshot_1234_"));
    assert_eq!(snapshot.status, SnapshotStatus::Pending);
}

#[test]
fn test_zram_pool_config_default() {
    let config = ZramPoolConfig::default();

    assert!(config.enabled);
    assert_eq!(config.compression_algorithm, "zstd");
    assert_eq!(config.max_snapshot_size, 4 * 1024 * 1024 * 1024);
    assert_eq!(config.retention_hours, 24);
}

#[test]
fn test_memory_ejection_config_default() {
    let config = MemoryEjectionConfig::default();

    assert!(config.enabled);
    assert!(config.auto_trigger);
    assert_eq!(f64::from_bits(config.anomaly_threshold_bits), 0.95);
    assert_eq!(config.max_concurrent_snapshots, 10);
}

fn pool(n: u32) -> ZramPoolConfig {
    let mut config = ZramPoolConfig::default();
    config.devices = (0..n).map(|i| ZramDevice::new(i, 1 << 20, "lz4")).collect();
    config
}

#[test]
fn zram_device_path_and_ratio() {
    let mut d = ZramDevice::new(3, 10, "lzo");
    assert_eq!(d.device_path, "/dev/zram3");
    d.compression_ratio_bits = 2.5f64.to_bits();
    assert_eq!(f64::from_bits(d.get_compression_ratio()), 1.0);
    d.used = 1;
    assert_eq!(f64::from_bits(d.get_compression_ratio()), 2.5);
}

#[test]
fn zram_devices_are_used_in_turn() {
    let mut m = ZramManager::new(pool(3));
    let order: Vec<u32> = (0..7).map(|_| m.get_next_device().unwrap().device_number).collect();
    assert_eq!(order, vec![0, 1, 2, 0, 1, 2, 0]);
    assert_eq!(m.get_device(2).unwrap().device_path, "/dev/zram2");
    assert!(m.get_device(9).is_none());

    let mut empty = ZramManager::new(pool(0));
    assert!(empty.get_next_device().is_none());
    assert_eq!(empty.begin_snapshot_at(1, "x", 5).err(), Some("No zRAM devices available".to_string()));
}

#[test]
fn zram_snapshot_lifecycle() {
    let mut m = ZramManager::new(pool(2));
    let mut s = m.begin_snapshot_at(42, "spike", 1000).unwrap();
    assert_eq!(s.snapshot_id, "snapshot_42_1000");
    assert_eq!(s.device.device_number, 0);
    assert_eq!(s.status, SnapshotStatus::Pending);

    s.original_memory_size = 8192;
    s.compressed_size = 5 * 1024 * 1024 * 1024;
    assert_eq!(
        m.complete_snapshot(s.clone()).err(),
        Some("Snapshot too large: 5368709120 > 4294967296".to_string())
    );
    assert!(m.list_snapshots().is_empty());

    s.compressed_size = 4096;
    let done = m.complete_snapshot(s).unwrap();
    assert_eq!(done.status, SnapshotStatus::Completed);
    assert_eq!(m.list_snapshots().len(), 1);
    assert_eq!(m.get_snapshot("snapshot_42_1000").unwrap().compressed_size, 4096);
    assert_eq!(m.total_sizes(), (8192, 4096));

    let mut later = m.begin_snapshot_at(7, "again", 90_000).unwrap();
    assert_eq!(later.device.device_number, 1);
    later.compressed_size = 1;
    m.complete_snapshot(later).unwrap();

    // 24 hours of retention: the first snapshot expires after 1000 + 86400.
    m.cleanup_expired_at(87_400);
    assert_eq!(m.list_snapshots().len(), 2);
    m.cleanup_expired_at(87_401);
    let left = m.list_snapshots();
    assert_eq!(left.len(), 1);
    assert_eq!(left[0].pid, 7);
}

#[test]
fn zram_disabled_pool_refuses_snapshots() {
    let mut config = pool(1);
    config.enabled = false;
    let mut m = ZramManager::new(config);
    assert_eq!(m.begin_snapshot_at(1, "x", 1).err(), Some("zRAM snapshot disabled".to_string()));
}

#[test]
fn memory_ejector_limits_concurrent_snapshots() {
    let mut config = MemoryEjectionConfig::default();
    config.max_concurrent_snapshots = 1;
    let mut e = MemoryEjector::new(config);
    assert!(e.should_eject(true));
    assert!(!e.should_eject(false));
    let s = e.begin_ejection_at(5, "anomaly", 10).unwrap();
    e.complete_ejection(s).unwrap();
    assert_eq!(
        e.begin_ejection_at(6, "anomaly", 11).err(),
        Some("Too many concurrent snapshots: 1 >= 1".to_string())
    );

    let mut off = MemoryEjectionConfig::default();
    off.enabled = false;
    let mut e = MemoryEjector::new(off);
    assert!(!e.should_eject(true));
    assert_eq!(e.begin_ejection_at(5, "x", 1).err(), Some("Memory ejection disabled".to_string()));
}
