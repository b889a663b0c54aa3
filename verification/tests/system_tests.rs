use ccze_rs::config::{AutoFixStrategy, ConfigError, ConfigSchema};
use ccze_rs::dkms::{
    CommandOutput, DkmsConfig, DkmsManager, DkmsStatus, KernelModule, ModuleDefinition,
    LoadStep, ModuleProbe, ModuleStatus, XdpDkmsManager, ZramDkmsManager,
};
use ccze_rs::gossip::{GossipMessage, GossipMessageType, GossipStats, ThreatSeverity, ThreatSignature};
use ccze_rs::protocol::Phase;
use ccze_rs::rollback::{split_command, PackageManager, PackageManagerConfig, RollbackStats, RollbackTriggerType, UpdateState};
use ccze_rs::scheduler::{CoreAdjacency, CpuTopology, SchedulerStrategy};
use ccze_rs::seccomp::{
    DangerousSyscalls, SeccompAction, SeccompFilter, SeccompManager, StateBoundSeccomp,
    SyscallDatabase,
};
use ccze_rs::timing::{AttackType, HighResTimer, JitterWindow, MicroTimestamp};
use ccze_rs::zram::{memory_values_fit, parse_memory_value, process_memory_info, SnapshotStatus};

#[test]
fn test_seccomp_filter_generation() {
    for phase in [Phase::Cold, Phase::Started, Phase::Authenticated, Phase::Bound, Phase::Ready] {
        let filter = SeccompFilter::new(1234, phase);
        assert_eq!(filter.pid, 1234);
        assert_eq!(filter.phase, phase);
        assert!(!filter.rules.is_empty());
    }
}

#[test]
fn test_seccomp_filter_allow() {
    let filter = SeccompFilter::new(1234, Phase::Ready);
    assert!(filter.is_allowed(2));
    assert!(filter.is_allowed(3));
    assert!(filter.is_allowed(4));
    assert!(!filter.is_allowed(160));
    assert!(!filter.is_allowed(174));
}

#[test]
fn ready_filter_kills_execve() {
    let filter = SeccompFilter::new(1234, Phase::Ready);
    assert_eq!(filter.get_action(59), SeccompAction::Kill);
    assert!(!filter.is_allowed(59));
    assert!(filter.is_allowed(2));
}

#[test]
fn test_seccomp_filter_cold() {
    let filter = SeccompFilter::new(1234, Phase::Cold);
    assert!(filter.is_allowed(9));
    assert!(filter.is_allowed(12));
    assert!(!filter.is_allowed(2));
}

#[test]
fn test_seccomp_manager() {
    let mut manager = SeccompManager::new();
    manager.update_protocol_phase(1234, Phase::Started);
    manager.install_filter(1234).unwrap();
    assert!(manager.is_allowed(1234, 2));
    assert!(!manager.is_allowed(1234, 59));
}

#[test]
fn test_dangerous_syscalls() {
    assert!(DangerousSyscalls::is_dangerous(59));
    assert!(DangerousSyscalls::is_dangerous(160));
    assert!(!DangerousSyscalls::is_dangerous(2));
}

#[test]
fn test_syscall_database() {
    let db = SyscallDatabase::new();
    assert_eq!(db.get_name(59), Some("execve".to_string()));
    assert_eq!(db.get_name(2), Some("open".to_string()));
    assert_eq!(db.get_name(9999), None);
}

#[test]
fn test_state_bound_seccomp() {
    let mut sb_seccomp = StateBoundSeccomp::new();
    sb_seccomp.update_phase(1234, Phase::Ready);
    assert_eq!(sb_seccomp.get_phase(1234), Some(Phase::Ready));
    sb_seccomp.install_filter(1234).unwrap();
    assert!(sb_seccomp.is_allowed(1234, 2));
}

#[test]
fn seccomp_unknown_process_is_allowed_and_privileged_calls_are_killed() {
    let manager = SeccompManager::new();
    assert!(manager.is_allowed(77, 160));
    let filter = SeccompFilter::new(1, Phase::Ready);
    assert_eq!(filter.get_action(160), SeccompAction::Kill);
    assert_eq!(filter.get_action(2), SeccompAction::Allow);
}

#[test]
fn test_module_status() {
    assert!(ModuleStatus::Loaded != ModuleStatus::NotAvailable);
    assert!(ModuleStatus::Available != ModuleStatus::Blacklisted);
}

#[test]
fn test_kernel_module_creation() {
    let module = KernelModule::new("test_module", "Test module");
    assert_eq!(module.name, "test_module");
    assert_eq!(module.description, "Test module");
    assert!(!module.is_loaded());
    assert!(!module.is_available());
}

#[test]
fn test_module_definition_creation() {
    let module = ModuleDefinition::new("xdp", "XDP support");
    assert_eq!(module.name, "xdp");
    assert_eq!(module.description, "XDP support");
    assert!(module.required);
}

#[test]
fn test_module_definition_xdp() {
    let module = ModuleDefinition::xdp();
    assert_eq!(module.name, "xdp");
    assert_eq!(module.description, "XDP (eXpress Data Path) support");
    assert!(module.dependencies.contains(&"bpf".to_string()));
}

#[test]
fn test_module_definition_zram() {
    let module = ModuleDefinition::zram();
    assert_eq!(module.name, "zram");
    assert_eq!(module.description, "Compressed RAM disk support");
    assert!(!module.parameters.is_empty());
}

#[test]
fn test_dkms_config_default() {
    let config = DkmsConfig::default();
    assert!(config.enabled);
    assert!(config.auto_load);
    assert!(!config.modules.is_empty());
    assert_eq!(config.modprobe_command, "modprobe");
}

#[test]
fn test_dkms_status() {
    let status = DkmsStatus {
        enabled: true,
        dkms_available: true,
        total_modules: 3,
        loaded_modules: 2,
        available_modules: 3,
        failed_modules: 0,
    };
    assert!(status.enabled);
    assert!(status.dkms_available);
    assert_eq!(status.loaded_modules, 2);
}

#[test]
fn test_xdp_dkms_manager() {
    let config = DkmsConfig::default();
    let dkms = DkmsManager::new(config);
    let xdp_dkms = XdpDkmsManager::new(dkms);
    assert_eq!(xdp_dkms.xdp_modules().len(), 3);
    assert!(xdp_dkms.xdp_modules().contains(&"xdp_diag".to_string()));
}

#[test]
fn test_zram_dkms_manager() {
    let config = DkmsConfig::default();
    let dkms = DkmsManager::new(config);
    let zram_dkms = ZramDkmsManager::new(dkms);
    assert!(zram_dkms.dkms().config().enabled);
}

fn probe(loaded: bool, available: bool, blacklisted: bool, dry_run_ok: bool) -> ModuleProbe {
    ModuleProbe { loaded, available, blacklisted, dry_run_ok }
}

#[test]
fn initialize_records_each_configured_module() {
    let mut manager = DkmsManager::new(DkmsConfig::default());
    let probes = vec![
        probe(true, true, false, true),
        probe(false, true, false, false),
        probe(false, false, true, false),
    ];
    manager.initialize(true, &probes).unwrap();
    assert_eq!(manager.get_module_info("xdp").unwrap().unwrap().status, ModuleStatus::Loaded);
    assert_eq!(manager.get_module_info("zram").unwrap().unwrap().status, ModuleStatus::Available);
    assert_eq!(manager.get_module_info("bpf").unwrap().unwrap().status, ModuleStatus::Blacklisted);
    assert!(manager.get_module_info("other").unwrap().is_none());
    let status = manager.get_status(true);
    assert_eq!(status.total_modules, 3);
    assert_eq!(status.loaded_modules, 1);
    assert_eq!(status.available_modules, 2);
    assert_eq!(status.failed_modules, 0);
}

#[test]
fn initialize_without_dkms_uses_modprobe_dry_runs() {
    let mut manager = DkmsManager::new(DkmsConfig::default());
    let probes = vec![
        probe(false, false, false, true),
        probe(true, false, false, true),
        probe(true, false, true, false),
    ];
    manager.initialize(false, &probes).unwrap();
    assert_eq!(manager.get_module_info("xdp").unwrap().unwrap().status, ModuleStatus::Available);
    assert_eq!(manager.get_module_info("zram").unwrap().unwrap().status, ModuleStatus::Loaded);
    assert_eq!(manager.get_module_info("bpf").unwrap().unwrap().status, ModuleStatus::NotAvailable);
    assert_eq!(manager.list_modules().len(), 3);
}

#[test]
fn disabled_manager_checks_nothing() {
    let mut config = DkmsConfig::default();
    config.enabled = false;
    let mut manager = DkmsManager::new(config);
    manager.initialize(true, &Vec::new()).unwrap();
    assert!(manager.list_modules().is_empty());
}

#[test]
fn lsmod_output_is_read_by_first_word_after_the_header() {
    let manager = DkmsManager::new(DkmsConfig::default());
    let output = CommandOutput {
        success: true,
        stdout: "Module Size Used\nzram 32768 4\nbpf_x 100 0\n".to_string(),
    };
    assert_eq!(manager.is_module_loaded("zram", Ok(output.clone())), Ok(true));
    assert_eq!(manager.is_module_loaded("bpf", Ok(output.clone())), Ok(false));
    assert_eq!(manager.is_module_loaded("Module", Ok(output)), Ok(false));
    let failed = CommandOutput { success: false, stdout: "x\nzram 1 1\n".to_string() };
    assert_eq!(manager.is_module_loaded("zram", Ok(failed)), Ok(false));
    assert_eq!(
        manager.is_module_loaded("zram", Err("not found".to_string())),
        Err("Failed to check module zram: not found".to_string())
    );
}

#[test]
fn blacklists_are_found_in_modprobe_files() {
    let manager = DkmsManager::new(DkmsConfig::default());
    let files = vec!["# nothing\n".to_string(), "install zram /bin/false\n".to_string()];
    assert!(manager.is_module_blacklisted("zram", &files, None));
    assert!(!manager.is_module_blacklisted("xdp", &files, None));
    assert!(manager.is_module_blacklisted("xdp", &files, Some("blacklist xdp\n")));
}

#[test]
fn required_module_failures_are_named() {
    let manager = DkmsManager::new(DkmsConfig::default());
    assert!(matches!(
        manager.ensure_required_modules(&vec![Ok(true), Ok(true), Ok(true)]),
        LoadStep::Done(Ok(v)) if v.is_empty()
    ));
    assert!(matches!(
        manager.ensure_required_modules(&vec![Ok(true), Ok(false), Ok(false)]),
        LoadStep::Done(Err(e)) if e == "Failed to load required modules: [\"zram\", \"bpf\"]"
    ));
    let xdp = XdpDkmsManager::new(DkmsManager::new(DkmsConfig::default()));
    assert_eq!(xdp.is_xdp_ready(&vec![true, false, true]), Ok(false));
    assert_eq!(xdp.is_xdp_ready(&vec![true, true, true]), Ok(true));
    assert_eq!(ZramDkmsManager::zram_params(32), "num_devices=32");
}

#[test]
fn dkms_version_check_reports_failures() {
    let manager = DkmsManager::new(DkmsConfig::default());
    let ok = CommandOutput { success: true, stdout: String::new() };
    assert_eq!(manager.is_dkms_available(Ok(ok)), Ok(true));
    assert_eq!(
        manager.is_dkms_available(Err("no such file".to_string())),
        Err("Failed to check DKMS: no such file".to_string())
    );
}

#[test]
fn test_timestamp_operations() {
    let ts1 = MicroTimestamp::from_nanos(1_000_000);
    let ts2 = MicroTimestamp::from_nanos(2_500_000);
    assert_eq!(ts1.as_micros(), 1000);
    assert_eq!(ts2.as_micros(), 2500);
    assert_eq!(ts2.diff_micros(ts1), 1500);
    assert_eq!(ts1.diff_micros(ts2), 1500);
}

#[test]
fn test_jitter_window() {
    let mut window = JitterWindow::new(10);
    for i in 0..5 {
        let ts = MicroTimestamp::from_nanos((i + 1) * 100_000);
        window.push(ts);
    }
    assert_eq!(window.len(), 4);
    assert!(!window.is_empty());
}

#[test]
fn test_high_res_timer() {
    let mut timer = HighResTimer::new();
    timer.start();
    let mut sum = 0u64;
    for i in 0..1000 {
        sum = sum.wrapping_add(i);
    }
    assert!(sum > 0);
    let elapsed = timer.stop();
    assert!(elapsed > 0);
}

#[test]
fn stopped_timer_reads_zero() {
    let mut timer = HighResTimer::new();
    assert_eq!(timer.stop(), 0);
    timer.start();
    timer.reset();
    assert_eq!(timer.stop_timestamp().nanos, 0);
}

#[test]
fn test_attack_type_display() {
    assert_eq!(AttackType::NoAttack.as_str(), "none");
    assert_eq!(AttackType::SpectreV1.as_str(), "spectre_v1");
    assert_eq!(AttackType::SpectreV2.as_str(), "spectre_v2");
    assert_eq!(AttackType::Meltdown.as_str(), "meltdown");
    assert_eq!(AttackType::CacheTiming.as_str(), "cache_timing");
}

fn window_with_intervals(intervals: &[u64]) -> JitterWindow {
    let mut window = JitterWindow::new(6);
    let mut nanos = 0u64;
    window.push(MicroTimestamp::from_nanos(nanos));
    for interval in intervals {
        nanos += interval * 1000;
        window.push(MicroTimestamp::from_nanos(nanos));
    }
    window
}

#[test]
fn jitter_signatures_are_recognized() {
    assert_eq!(window_with_intervals(&[100, 200, 250, 150, 300, 120]).match_signature(), AttackType::Meltdown);
    assert_eq!(window_with_intervals(&[50, 100, 150, 80, 120, 180]).match_signature(), AttackType::SpectreV1);
    assert_eq!(window_with_intervals(&[30, 80, 120, 60, 100, 140]).match_signature(), AttackType::SpectreV2);
    // three of six within 20% of the Spectre v1 pattern: a generic anomaly
    assert_eq!(window_with_intervals(&[50, 100, 150, 1, 1, 1]).match_signature(), AttackType::CacheTiming);
    assert_eq!(window_with_intervals(&[1, 1, 1, 1, 1, 1]).match_signature(), AttackType::NoAttack);
    assert_eq!(window_with_intervals(&[100, 200]).match_signature(), AttackType::NoAttack);
}

#[test]
fn jitter_window_keeps_its_capacity() {
    let mut window = JitterWindow::new(2);
    for i in 0..10u64 {
        window.push(MicroTimestamp::from_nanos(i * i * 1000));
    }
    assert_eq!(window.len(), 2);
    let kept: Vec<u64> = window.intervals().iter().copied().collect();
    assert_eq!(kept, vec![15, 17]);
}

#[test]
fn test_core_adjacency() {
    let adj = CoreAdjacency::linear(4);
    assert_eq!(adj.core_count, 4);
    assert!(adj.adjacency[0][0]);
    assert!(adj.adjacency[0][1]);
    assert!(!adj.adjacency[0][2]);
    let adj_full = CoreAdjacency::fully_connected(4);
    assert!(adj_full.adjacency[0][3]);
    let adj_iso = CoreAdjacency::isolated(4);
    assert!(!adj_iso.adjacency[0][1]);
}

#[test]
fn default_adjacency_is_four_cores_in_a_line() {
    let adj = CoreAdjacency::default();
    assert_eq!(adj.core_count, 4);
    assert!(adj.adjacency[2][3] && adj.adjacency[3][2]);
    assert!(!adj.adjacency[0][3]);
    assert_eq!(SchedulerStrategy::default(), SchedulerStrategy::Greedy);
}

#[test]
fn test_cpu_topology() {
    let topology = CpuTopology::detect();
    assert!(topology.core_count > 0);
    assert!(topology.numa_nodes >= 1);
}

#[test]
fn test_threat_signature_creation() {
    let signature = ThreatSignature::new("xdp_attack", ThreatSeverity::High, vec![0x01, 0x02, 0x03, 0x04]);
    assert_eq!(signature.threat_type, "xdp_attack");
    assert_eq!(signature.severity, ThreatSeverity::High);
    assert!(!signature.is_expired());
}

#[test]
fn threat_signatures_expire_after_an_hour() {
    let signature = ThreatSignature::issued_at("scan", ThreatSeverity::Low, Vec::new(), 1000);
    assert_eq!(signature.signature_id, "threat_scan_1000");
    assert_eq!(signature.expiration, 4600);
    assert!(!signature.is_expired_at(4600));
    assert!(signature.is_expired_at(4601));
    assert_eq!(ThreatSeverity::Critical.level(), 4);
}

#[test]
fn test_gossip_message_creation() {
    let message = GossipMessage::new(GossipMessageType::Heartbeat, "node1");
    assert_eq!(message.message_type, GossipMessageType::Heartbeat);
    assert_eq!(message.node_id, "node1");
}

#[test]
fn gossip_message_codes_round_trip() {
    assert_eq!(GossipMessageType::ThreatAlert.code(), 3);
    assert_eq!(GossipMessageType::from_code(8), Some(GossipMessageType::Acknowledgment));
    assert_eq!(GossipMessageType::from_code(0), None);
    let message = GossipMessage::sent_at(GossipMessageType::NodeLeave, "n", 7);
    assert_eq!(message.timestamp, 7);
    assert_eq!(message.sequence_number, 0);
}

#[test]
fn test_gossip_stats() {
    let stats = GossipStats {
        node_id: "test_node".to_string(),
        total_nodes: 10,
        active_nodes: 8,
        total_state_vectors: 100,
        total_threat_signatures: 5,
        critical_threat_signatures: 2,
        running: true,
    };
    assert_eq!(stats.node_id, "test_node");
    assert_eq!(stats.active_nodes, 8);
    assert_eq!(stats.critical_threat_signatures, 2);
}

#[test]
fn test_rollback_trigger_display() {
    assert_eq!(RollbackTriggerType::BinaryEntropySpike.as_str(), "binary_entropy_spike");
    assert_eq!(RollbackTriggerType::ServiceCrash.as_str(), "service_crash");
}

#[test]
fn test_update_state_equality() {
    assert_eq!(UpdateState::Idle, UpdateState::Idle);
    assert_eq!(UpdateState::Rollback, UpdateState::Rollback);
    assert_ne!(UpdateState::Idle, UpdateState::Rollback);
}

#[test]
fn test_package_manager_display() {
    assert_eq!(PackageManager::Rpm.as_str(), "rpm");
    assert_eq!(PackageManager::Deb.as_str(), "deb");
}

#[test]
fn test_rollback_stats() {
    let stats = RollbackStats {
        total_triggers: 5,
        critical_triggers: 2,
        current_state: UpdateState::Idle,
        rollback_attempts: 1,
        enabled: true,
        auto_rollback: true,
    };
    assert_eq!(stats.total_triggers, 5);
    assert_eq!(stats.critical_triggers, 2);
    assert_eq!(stats.rollback_attempts, 1);
}

#[test]
fn configured_commands_split_into_program_and_arguments() {
    let config = PackageManagerConfig::default();
    let (program, args) = split_command(&config.rollback_command).unwrap();
    assert_eq!(program, "transactional-update");
    assert_eq!(args, vec!["rollback".to_string()]);
    assert_eq!(split_command("  \t "), Err("configured command is empty".to_string()));
    assert_eq!(PackageManager::TransactionalUpdate.as_str(), "transactional-update");
}

#[test]
fn test_snapshot_status_equality() {
    assert_eq!(SnapshotStatus::Pending, SnapshotStatus::Pending);
    assert_eq!(SnapshotStatus::Completed, SnapshotStatus::Completed);
    assert_ne!(SnapshotStatus::Pending, SnapshotStatus::Completed);
}

#[test]
fn memory_lines_are_read_in_bytes() {
    // the unit may follow the figure as a word of its own, as in /proc
    assert_eq!(parse_memory_value("VmRSS:\t1234kB"), Some(1234 * 1024));
    assert_eq!(parse_memory_value("VmRSS:\t  1234 kB"), Some(1234 * 1024));
    assert_eq!(parse_memory_value("VmRSS:   1234 MB"), None);
    assert_eq!(parse_memory_value("VmRSS: 12"), None);
    assert_eq!(parse_memory_value("VmRSS:"), None);
    let status = "Name:\tcat\nVmSize:\t8000kB\nVmRSS: 100kB\nVmSwap:\t0 kB\nVmRSS: 7 kB\n";
    assert!(memory_values_fit(status));
    let info = process_memory_info(status);
    assert_eq!(info.virtual_memory, 8000 * 1024);
    assert_eq!(info.rss, 7 * 1024);
    assert_eq!(info.swap, 0);
    assert_eq!(info.shared, 0);
    assert!(!memory_values_fit("VmRSS: 18446744073709551615kB"));
}

#[test]
fn config_errors_are_found_in_log_lines() {
    let line = b"nginx: [emerg] invalid parameter \"ssl\" in /etc/nginx/nginx.conf:42";
    let error = ConfigError::parse(line).unwrap();
    assert_eq!(error.service, "nginx");
    assert_eq!(error.config_path, "/etc/nginx/nginx.conf");
    assert_eq!(error.error, "[emerg] invalid parameter \"ssl\" in :42");
    assert_eq!(error.line_number, Some(42));

    let line = b"apache2: syntax error on line 7 of /etc/apache2/apache2.conf";
    let error = ConfigError::parse(line).unwrap();
    assert_eq!(error.service, "apache2");
    assert_eq!(error.config_path, "/etc/apache2/apache2.conf");
    assert_eq!(error.line_number, Some(7));

    assert!(ConfigError::parse(b"nginx: started").is_none());
    assert!(ConfigError::parse(b"invalid parameter without a colon /x").is_none());
    assert!(ConfigError::parse(b"svc: invalid parameter but no path").is_none());
    assert_eq!(AutoFixStrategy::Both, AutoFixStrategy::Both);
}

#[test]
fn config_syntax_errors_are_found_in_any_case() {
    let line = b"apache2: Syntax error on line 42 of /etc/apache2/apache2.conf";
    let error = ConfigError::parse(line).unwrap();
    assert_eq!(error.service, "apache2");
    assert_eq!(error.config_path, "/etc/apache2/apache2.conf");
    assert_eq!(error.error, "Syntax error on line 42 of");
    assert_eq!(error.line_number, Some(42));

    let line = b"httpd: SYNTAX ERROR on line 3 of /etc/httpd/httpd.conf";
    let error = ConfigError::parse(line).unwrap();
    assert_eq!(error.service, "httpd");
    assert_eq!(error.line_number, Some(3));
}

#[test]
fn schemas_keep_their_parameter_names() {
    let schema = ConfigSchema::new(vec!["port", "host"], vec!["debug"]);
    assert_eq!(schema.required, vec!["port".to_string(), "host".to_string()]);
    assert_eq!(schema.optional, vec!["debug".to_string()]);
}

#[test]
fn required_modules_load_in_turn_and_stop_at_the_first_error() {
    let mut config = DkmsConfig::default();
    config.modules[1].required = false;
    let optional = config.modules[1].name.clone();
    let manager = DkmsManager::new(config);
    let mut loads: Vec<Result<bool, String>> = Vec::new();
    let mut asked: Vec<String> = Vec::new();
    loop {
        match manager.ensure_required_modules(&loads) {
            LoadStep::Load(name) => {
                asked.push(name);
                loads.push(Ok(true));
            }
            LoadStep::Done(result) => {
                assert_eq!(result, Ok(Vec::new()));
                break;
            }
        }
    }
    assert_eq!(asked.len(), 2);
    assert!(!asked.contains(&optional));

    let manager = DkmsManager::new(DkmsConfig::default());
    assert!(matches!(
        manager.ensure_required_modules(&vec![Ok(false), Err("modprobe missing".to_string())]),
        LoadStep::Done(Err(e)) if e == "modprobe missing"
    ));
    assert!(matches!(
        manager.ensure_required_modules(&vec![Ok(false)]),
        LoadStep::Load(name) if name == "zram"
    ));

    let xdp = XdpDkmsManager::new(DkmsManager::new(DkmsConfig::default()));
    let first = xdp.xdp_modules()[0].clone();
    assert!(matches!(xdp.ensure_xdp_modules(&vec![]), LoadStep::Load(name) if name == first));
    assert!(matches!(
        xdp.ensure_xdp_modules(&vec![Err("no modprobe".to_string())]),
        LoadStep::Done(Err(e)) if e == "no modprobe"
    ));
}
