use ccze_rs::rollback::{
    BinaryEntropyChecker, RollbackConfig, RollbackManager, RollbackState, RollbackTrigger,
    RollbackTriggerType, SystemEntropyThresholds, UpdateState,
};

#[test]
fn test_rollback_trigger_creation() {
    let trigger = RollbackTrigger::new(
        RollbackTriggerType::BinaryEntropySpike,
        0.95f64.to_bits(),
        "Test entropy spike",
    );

    assert_eq!(trigger.trigger_type, RollbackTriggerType::BinaryEntropySpike);
    assert_eq!(f64::from_bits(trigger.severity_bits), 0.95);
    assert_eq!(trigger.description, "Test entropy spike");
    assert_eq!(trigger.state, RollbackState::Triggered);
}

#[test]
fn test_rollback_config_default() {
    let config = RollbackConfig::default();

    assert!(config.enabled);
    assert!(config.auto_rollback);
    assert_eq!(config.max_rollback_attempts, 3);
    assert_eq!(config.recovery_timeout, 300);
}

#[test]
fn test_system_entropy_thresholds_default() {
    let thresholds = SystemEntropyThresholds::default();

    assert_eq!(f64::from_bits(thresholds.binary_entropy_bits), 0.95);
    assert_eq!(f64::from_bits(thresholds.service_entropy_bits), 0.90);
    assert_eq!(f64::from_bits(thresholds.boot_entropy_bits), 0.85);
    assert_eq!(f64::from_bits(thresholds.config_entropy_bits), 0.80);
}

fn trigger(t: RollbackTriggerType) -> RollbackTrigger {
    RollbackTrigger::raised_at(t, 1.0f64.to_bits(), "test", 10)
}

#[test]
fn rollback_thresholds_per_trigger_type() {
    let m = RollbackManager::new(RollbackConfig::default());
    let th = |t| f64::from_bits(m.get_threshold_for_trigger(t));
    assert_eq!(th(RollbackTriggerType::BinaryEntropySpike), 0.95);
    assert_eq!(th(RollbackTriggerType::ServiceCrash), 0.90);
    assert_eq!(th(RollbackTriggerType::KernelPanic), 1.0);
    assert_eq!(th(RollbackTriggerType::BootFailure), 1.0);
    assert_eq!(th(RollbackTriggerType::PackageCorruption), 1.0);
    assert_eq!(th(RollbackTriggerType::SecurityVulnerability), 0.95);
    assert_eq!(th(RollbackTriggerType::ConfigCorruption), 0.80);
    assert!(m.should_trigger(true));
    assert!(!m.should_trigger(false));

    let mut config = RollbackConfig::default();
    config.auto_rollback = false;
    assert!(!RollbackManager::new(config).should_trigger(true));
}

#[test]
fn rollback_attempts_are_limited() {
    let mut config = RollbackConfig::default();
    config.max_rollback_attempts = 1;
    let mut m = RollbackManager::new(config);

    let (program, args) = m.begin_rollback(trigger(RollbackTriggerType::KernelPanic)).unwrap();
    assert_eq!(program, "transactional-update");
    assert_eq!(args, vec!["rollback".to_string()]);
    assert_eq!(
        m.finish_rollback(Ok((false, b"disk full".to_vec()))),
        Err("Rollback failed: disk full".to_string())
    );
    assert_eq!(m.check_system_state(), Ok(UpdateState::Idle));

    m.begin_rollback(trigger(RollbackTriggerType::BootFailure)).unwrap();
    assert_eq!(
        m.finish_rollback(Err("No such file or directory".to_string())),
        Err("Failed to execute rollback: No such file or directory".to_string())
    );

    m.begin_rollback(trigger(RollbackTriggerType::BootFailure)).unwrap();
    assert_eq!(m.finish_rollback(Ok((true, Vec::new()))), Ok(true));
    assert_eq!(m.check_system_state(), Ok(UpdateState::Rollback));

    assert_eq!(
        m.begin_rollback(trigger(RollbackTriggerType::BootFailure)),
        Err("Maximum rollback attempts exceeded".to_string())
    );
    let stats = m.get_stats(2);
    assert_eq!(stats.total_triggers, 3);
    assert_eq!(stats.critical_triggers, 2);
    assert_eq!(stats.rollback_attempts, 1);
    assert_eq!(stats.current_state, UpdateState::Rollback);
    assert_eq!(m.list_triggers().unwrap().len(), 3);
    m.clear_triggers().unwrap();
    assert_eq!(m.list_triggers().unwrap().len(), 0);
}

#[test]
fn rollback_empty_command_is_an_error() {
    let mut config = RollbackConfig::default();
    config.package_manager.rollback_command = "   ".to_string();
    let mut m = RollbackManager::new(config);
    assert_eq!(
        m.begin_rollback(trigger(RollbackTriggerType::KernelPanic)),
        Err("Failed to execute rollback: configured command is empty".to_string())
    );
}

#[test]
fn known_good_hashes_are_read_from_lines() {
    let mut c = BinaryEntropyChecker::new(0.85f64.to_bits());
    c.load_known_good_hashes("/bin/ls: abc123\nbroken line\n/bin/a:b:c\n /bin/cat :  def \n/bin/ls: fff\n");
    assert!(c.is_known_good("/bin/ls", "fff"));
    assert!(!c.is_known_good("/bin/ls", "abc123"));
    assert!(c.is_known_good("/bin/cat", "def"));
    assert!(!c.is_known_good("/bin/a", "b:c"));
    assert!(!c.is_known_good("/bin/sh", ""));
    assert_eq!(f64::from_bits(c.baseline_entropy()), 0.85);
}
