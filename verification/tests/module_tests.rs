use ccze_rs::analytics::MetricWindow;
use ccze_rs::cgroup::{
    cgroup_dir_name, cpu_max_text, memory_max_text, CgroupController, ResourceUsage, UsageHistory,
};
use ccze_rs::dkms::{kernel_config_has_module, kernel_config_path};
use ccze_rs::lsm::{LkmManager, LkmOperation, LsmConfig};
use ccze_rs::config::{
    classify_value, config_entries, config_entry, parse_i64_exec, AutoFixStrategy, ConfigSchema,
    ConfigValue, ValueKind,
};
use ccze_rs::protocol::{Event, Phase, Violation};
use ccze_rs::record::finish_record;
use ccze_rs::seccomp::{SeccompAction, SeccompEvent, SeccompLogger};

fn strings(v: &[&str]) -> Vec<String> {
    v.iter().map(|s| s.to_string()).collect()
}

#[test]
fn metric_window_keeps_the_newest_samples() {
    let mut w = MetricWindow::new(3);
    w.push(10, false);
    w.push(20, true);
    w.push(30, false);
    w.push(40, true);
    assert_eq!(w.len(), 3);
    assert_eq!(w.lengths(), vec![20, 30, 40]);
    assert_eq!(w.errors(), vec![1, 0, 1]);
}

#[test]
fn metric_window_counts_errors_and_spikes() {
    let mut w = MetricWindow::new(4);
    assert_eq!(w.error_count(), 0);
    assert!(!w.has_error_spike());
    w.push(10, false);
    w.push(10, false);
    w.push(10, true);
    assert_eq!(w.error_count(), 1);
    assert!(!w.has_error_spike());
    w.push(10, true);
    assert_eq!(w.error_count(), 2);
    assert!(w.has_error_spike());
    // The window holds four: true, true, false, false.
    w.push(10, false);
    w.push(10, false);
    assert_eq!(w.error_count(), 2);
    assert!(w.has_error_spike());
    // Now true, false, false, false.
    w.push(10, false);
    assert_eq!(w.error_count(), 1);
    assert!(!w.has_error_spike());
}

#[test]
fn metric_window_capacity_is_at_least_two() {
    let mut w = MetricWindow::new(0);
    w.push(1, false);
    w.push(2, false);
    w.push(3, false);
    assert_eq!(w.lengths(), vec![2, 3]);
}

#[test]
fn metric_window_clamps_huge_lengths() {
    let mut w = MetricWindow::new(4);
    w.push(usize::MAX, false);
    assert_eq!(w.lengths(), vec![i32::MAX]);
}

#[test]
fn parse_i64_follows_std() {
    assert_eq!(parse_i64_exec("42"), Some(42));
    assert_eq!(parse_i64_exec("-17"), Some(-17));
    assert_eq!(parse_i64_exec("+5"), Some(5));
    assert_eq!(parse_i64_exec("-9223372036854775808"), Some(i64::MIN));
    assert_eq!(parse_i64_exec("9223372036854775808"), None);
    assert_eq!(parse_i64_exec(""), None);
    assert_eq!(parse_i64_exec("-"), None);
    assert_eq!(parse_i64_exec("+-1"), None);
    assert_eq!(parse_i64_exec("1.5"), None);
}

#[test]
fn classify_value_kinds() {
    assert_eq!(classify_value(""), ValueKind::True);
    assert_eq!(classify_value("YES"), ValueKind::True);
    assert_eq!(classify_value("1"), ValueKind::True);
    assert_eq!(classify_value("Off"), ValueKind::False);
    assert_eq!(classify_value("0"), ValueKind::False);
    assert_eq!(classify_value("8080"), ValueKind::Integer(8080));
    assert_eq!(classify_value("-3"), ValueKind::Integer(-3));
    assert_eq!(classify_value("0.5"), ValueKind::Other);
    assert_eq!(classify_value("hello"), ValueKind::Other);
}

#[test]
fn config_entries_read_lines() {
    let entries = config_entries("# comment\n; other\n\n port = 8080 \nverbose\nname = a=b\n");
    assert_eq!(entries.len(), 3);
    assert_eq!(entries[0].key, "port");
    assert_eq!(entries[0].value, Some("8080".to_string()));
    assert_eq!(entries[1].key, "verbose");
    assert_eq!(entries[1].value, None);
    assert_eq!(entries[2].key, "name");
    assert_eq!(entries[2].value, Some("a=b".to_string()));
    assert!(config_entry("   ").is_none());
}

#[test]
fn test_config_validation() {
    let schema = ConfigSchema::new(vec!["port", "host"], vec!["debug"]);

    // A configuration holding "host" and "debug".
    let mut present = strings(&["host", "debug"]);
    let errors = schema.validate(&present);
    assert_eq!(errors.len(), 1);
    assert!(errors[0].contains("port"));

    // "port" set as well.
    present.push("port".to_string());
    let errors = schema.validate(&present);
    assert!(errors.is_empty());
}

#[test]
fn schema_validation_lists_missing() {
    let schema = ConfigSchema::new(vec!["port", "host"], vec!["verbose"]);
    let present = strings(&["host"]);
    assert_eq!(
        schema.validate(&present),
        vec!["missing required parameter: port".to_string()]
    );
    assert!(!schema.is_valid(&present));
    assert!(schema.is_valid(&strings(&["port", "host", "extra"])));
}

#[test]
fn heal_plan_follows_strategy() {
    let schema = ConfigSchema::new(vec!["port", "host"], vec!["verbose"]);
    let present = strings(&["host", "junk"]);
    let defaults = strings(&["port"]);

    let fixed = schema.heal_plan(AutoFixStrategy::Both, &present, &defaults).unwrap();
    assert_eq!(fixed.add_defaults, strings(&["port"]));
    let keep = fixed.keep_only.unwrap();
    assert!(keep.contains(&"port".to_string()));
    assert!(keep.contains(&"verbose".to_string()));
    assert!(!keep.contains(&"junk".to_string()));

    let defaults_only = schema.heal_plan(AutoFixStrategy::Defaults, &present, &defaults).unwrap();
    assert_eq!(defaults_only.add_defaults, strings(&["port"]));
    assert!(defaults_only.keep_only.is_none());

    assert_eq!(
        schema.heal_plan(AutoFixStrategy::NoFix, &present, &defaults).err(),
        Some(vec!["missing required parameter: port".to_string()])
    );
    assert_eq!(
        schema.heal_plan(AutoFixStrategy::RemoveInvalid, &present, &defaults).err(),
        Some(vec!["missing required parameter: port".to_string()])
    );
    assert_eq!(
        schema.heal_plan(AutoFixStrategy::Defaults, &present, &Vec::new()).err(),
        Some(vec!["missing required parameter: port".to_string()])
    );

    let valid = schema.heal_plan(AutoFixStrategy::NoFix, &strings(&["port", "host"]), &defaults).unwrap();
    assert!(valid.add_defaults.is_empty());
    assert!(valid.keep_only.is_none());
}

#[test]
fn finish_record_appends_note_and_newline() {
    let mut out = b"line".to_vec();
    finish_record(
        &mut out,
        Some(Violation { previous: Phase::Cold, event: Event::Ready }),
        true,
    );
    assert_eq!(
        String::from_utf8(out).unwrap(),
        "line [protocol violation: invalid Ready event while in Cold phase]\n"
    );

    let mut plain = b"x".to_vec();
    finish_record(&mut plain, None, false);
    assert_eq!(plain, b"x".to_vec());
    finish_record(&mut plain, None, true);
    assert_eq!(plain, b"x\n".to_vec());
}

#[test]
fn seccomp_logger_message() {
    let event = SeccompEvent {
        pid: 4242,
        syscall_nr: -1,
        syscall_name: "unknown".to_string(),
        action: SeccompAction::Kill,
        timestamp: std::time::Instant::now(),
    };
    assert_eq!(
        SeccompLogger::message(&event),
        "ccze-seccomp: pid=4242 syscall=-1 (unknown) action=Kill"
    );
    let allowed = SeccompEvent {
        pid: 1,
        syscall_nr: 59,
        syscall_name: "execve".to_string(),
        action: SeccompAction::Allow,
        timestamp: std::time::Instant::now(),
    };
    assert_eq!(
        SeccompLogger::message(&allowed),
        "ccze-seccomp: pid=1 syscall=59 (execve) action=Allow"
    );
}

#[test]
fn kernel_config_lists_modules() {
    let config = "# comment\nCONFIG_ZRAM=m\nCONFIG_BPF=y\nCONFIG_XDP_SOCKETS=n\n";
    assert!(kernel_config_has_module(config, "zram"));
    assert!(kernel_config_has_module(config, "bpf"));
    assert!(!kernel_config_has_module(config, "xdp_sockets"));
    assert!(!kernel_config_has_module(config, "ext4"));
    assert_eq!(kernel_config_path("6.1.0-13-amd64\n"), "/boot/config-6.1.0-13-amd64");
}

#[test]
fn lkm_make_commands_and_outcomes() {
    let lkm = LkmManager::new(&LsmConfig::default());
    let build = lkm.make_command(LkmOperation::Build);
    assert_eq!(build.program, "make");
    assert!(build.args.is_empty());
    assert_eq!(lkm.make_command(LkmOperation::Install).args, vec!["install".to_string()]);
    assert_eq!(lkm.make_command(LkmOperation::Remove).args, vec!["uninstall".to_string()]);
    assert_eq!(
        lkm.make_outcome(LkmOperation::Build, false, Ok(true)),
        Err("LKM source directory not found".to_string())
    );
    assert_eq!(lkm.make_outcome(LkmOperation::Install, true, Ok(false)), Ok(false));
    assert_eq!(
        lkm.make_outcome(LkmOperation::Remove, true, Err("no make".to_string())),
        Err("Failed to remove LKM: no make".to_string())
    );
}

#[test]
fn test_usage_history() {
    let mut manager = UsageHistory::new();

    let usage1 = ResourceUsage {
        cpu_usage_bits: 10.0f64.to_bits(),
        memory_usage: 1024 * 1024,
        memory_rss: 512 * 1024,
        timestamp: 1000,
    };

    let usage2 = ResourceUsage {
        cpu_usage_bits: 20.0f64.to_bits(),
        memory_usage: 2048 * 1024,
        memory_rss: 1024 * 1024,
        timestamp: 1001,
    };

    manager.record_usage(1234, usage1);
    manager.record_usage(1234, usage2);

    let history = manager.get_usage_history(1234);
    assert_eq!(history.len(), 2);
}

#[test]
fn usage_history_keeps_the_newest_hundred_per_process() {
    let mut h = UsageHistory::new();
    for t in 0..150u64 {
        h.record_usage(1, ResourceUsage { cpu_usage_bits: 0, memory_usage: t, memory_rss: 0, timestamp: t });
    }
    h.record_usage(2, ResourceUsage { cpu_usage_bits: 0, memory_usage: 7, memory_rss: 0, timestamp: 7 });
    let one = h.get_usage_history(1);
    assert_eq!(one.len(), 100);
    assert_eq!(one[0].timestamp, 50);
    assert_eq!(one[99].timestamp, 149);
    assert_eq!(h.get_usage_history(2).len(), 1);
    assert!(h.get_usage_history(3).is_empty());
}

#[test]
fn cgroup_names_and_limit_texts() {
    assert_eq!(cgroup_dir_name(1234, CgroupController::CpuMemory), "ccze_clamp_1234_cpu,memory");
    assert_eq!(cgroup_dir_name(7, CgroupController::Cpu), "ccze_clamp_7_cpu");
    assert_eq!(memory_max_text(0), "max");
    assert_eq!(memory_max_text(1048576), "1048576");
    assert_eq!(cpu_max_text(None), "max 100000");
    assert_eq!(cpu_max_text(Some(1000)), "1000 100000");
}

#[test]
fn config_values_read_as_booleans_and_integers() {
    assert_eq!(ConfigValue::Boolean(false).as_boolean(), Some(false));
    assert_eq!(ConfigValue::String("YES".to_string()).as_boolean(), Some(true));
    assert_eq!(ConfigValue::String("Off".to_string()).as_boolean(), Some(false));
    assert_eq!(ConfigValue::String("1".to_string()).as_boolean(), Some(true));
    assert_eq!(ConfigValue::String("maybe".to_string()).as_boolean(), None);
    assert_eq!(ConfigValue::Integer(-3).as_boolean(), Some(true));
    assert_eq!(ConfigValue::Integer(0).as_boolean(), Some(false));
    assert_eq!(ConfigValue::Float(1.5f64.to_bits()).as_boolean(), None);
    assert_eq!(ConfigValue::List(vec![]).as_boolean(), None);

    assert_eq!(ConfigValue::Integer(8080).as_integer(), Some(8080));
    assert_eq!(ConfigValue::String("-42".to_string()).as_integer(), Some(-42));
    assert_eq!(ConfigValue::String("4x".to_string()).as_integer(), None);
    assert_eq!(ConfigValue::Boolean(true).as_integer(), Some(1));
    assert_eq!(ConfigValue::Boolean(false).as_integer(), Some(0));
    assert_eq!(ConfigValue::Float(2.0f64.to_bits()).as_integer(), None);
}
