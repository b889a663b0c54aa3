use ccze_rs::dkms::CommandOutput;
use ccze_rs::lsm::{
    CapabilityManager, Context, LkmManager, LsmAction, LsmCondition, LsmConfig, LsmDecision,
    LsmHookType, LsmManager, LsmRule, LsmStats,
};

fn context(pairs: &[(&str, &str)]) -> Context {
    let mut c = Context::new();
    for (k, v) in pairs {
        c.insert(k, v);
    }
    c
}

#[test]
fn test_lsm_hook_type_display() {
    assert_eq!(LsmHookType::FileOpen.as_str(), "file_open");
    assert_eq!(LsmHookType::ProcessExec.as_str(), "process_exec");
    assert_eq!(LsmHookType::Capable.as_str(), "capable");
}

#[test]
fn test_lsm_action_equality() {
    assert_eq!(LsmAction::Allow, LsmAction::Allow);
    assert_eq!(LsmAction::Deny, LsmAction::Deny);
    assert_ne!(LsmAction::Allow, LsmAction::Deny);
}

#[test]
fn test_lsm_decision_creation() {
    let decision = LsmDecision::new(LsmHookType::FileOpen, LsmAction::Deny, "test");
    assert_eq!(decision.hook_type, LsmHookType::FileOpen);
    assert_eq!(decision.action, LsmAction::Deny);
    assert_eq!(decision.reason, "test");
}

#[test]
fn test_lsm_rule_creation() {
    let rule = LsmRule::new("test_rule", LsmHookType::FileOpen, LsmAction::Deny);
    assert_eq!(rule.name, "test_rule");
    assert_eq!(rule.hook_type, LsmHookType::FileOpen);
    assert_eq!(rule.action, LsmAction::Deny);
}

#[test]
fn test_lsm_config_default() {
    let config = LsmConfig::default();
    assert!(config.enabled);
    assert!(!config.auto_load);
    assert_eq!(config.lsm_name, "ccze");
    assert_eq!(config.module_name, "ccze_lsm");
}

#[test]
fn test_lsm_stats() {
    let stats = LsmStats {
        enabled: true,
        lsm_name: "test".to_string(),
        module_name: "test_lsm".to_string(),
        total_rules: 5,
        total_decisions: 10,
        denied: 2,
        allowed: 7,
        audited: 1,
    };
    assert!(stats.enabled);
    assert_eq!(stats.total_rules, 5);
    assert_eq!(stats.denied, 2);
}

#[test]
fn test_capability_to_name() {
    let cap_manager = CapabilityManager::new(LsmManager::new(LsmConfig::default()));
    assert_eq!(cap_manager.capability_to_name(0), "CAP_CHOWN");
    assert_eq!(cap_manager.capability_to_name(21), "CAP_SYS_ADMIN");
    assert_eq!(cap_manager.capability_to_name(39), "CAP_39");
}

#[test]
fn test_lsm_condition_string_equals() {
    let condition = LsmCondition::StringEquals {
        key: "path".to_string(),
        value: "/tmp/test".to_string(),
    };
    let mut context = Context::new();
    context.insert("path", "/tmp/test");
    assert!(condition.evaluate(&context));
    context.insert("path", "/tmp/other");
    assert!(!condition.evaluate(&context));
}

#[test]
fn test_lsm_condition_numeric_greater_than() {
    let condition = LsmCondition::NumericGreaterThan { key: "uid".to_string(), value: 0 };
    let mut context = Context::new();
    context.insert("uid", "1000");
    assert!(condition.evaluate(&context));
    context.insert("uid", "0");
    assert!(!condition.evaluate(&context));
}

#[test]
fn test_capability_manager_basic() {
    let lsm_manager = LsmManager::new(LsmConfig::default());
    let cap_manager = CapabilityManager::new(lsm_manager);
    assert_eq!(cap_manager.capability_to_name(0), "CAP_CHOWN");
    assert_eq!(cap_manager.capability_to_name(21), "CAP_SYS_ADMIN");
    assert_eq!(cap_manager.capability_to_name(39), "CAP_39");
}

#[test]
fn test_lkm_manager_config() {
    let config = LsmConfig::default();
    let lkm_manager = LkmManager::new(&config);
    assert_eq!(lkm_manager.config().module_name, "ccze_lsm");
    assert_eq!(lkm_manager.config().lsm_name, "ccze");
}

#[test]
fn test_lsm_stats_with_manager() {
    let config = LsmConfig::default();
    let lsm_manager = LsmManager::new(config);
    let stats = lsm_manager.get_stats();
    assert!(stats.enabled);
    assert_eq!(stats.lsm_name, "ccze");
    assert_eq!(stats.module_name, "ccze_lsm");
}

#[test]
fn context_keeps_one_value_per_key() {
    let mut c = Context::new();
    c.insert("a", "1");
    c.insert("b", "2");
    c.insert("a", "3");
    assert_eq!(c.len(), 2);
    assert_eq!(c.get("a"), Some(&"3".to_string()));
    assert_eq!(c.get("c"), None);
}

#[test]
fn conditions_read_their_keys() {
    let c = context(&[("path", "/tmp/evil.sh"), ("n", "+15"), ("flag", "YES"), ("ip", "10.0.0.1")]);
    let s = |k: &str, v: &str| (k.to_string(), v.to_string());
    let (k, v) = s("path", "evil");
    assert!(LsmCondition::StringContains { key: k, value: v }.evaluate(&c));
    let (k, v) = s("path", "/tmp/");
    assert!(LsmCondition::StringPrefix { key: k, value: v }.evaluate(&c));
    let (k, v) = s("path", ".sh");
    assert!(LsmCondition::StringSuffix { key: k, value: v }.evaluate(&c));
    assert!(LsmCondition::NumericEquals { key: "n".to_string(), value: 15 }.evaluate(&c));
    assert!(LsmCondition::NumericLessThan { key: "n".to_string(), value: 16 }.evaluate(&c));
    assert!(LsmCondition::NumericInRange { key: "n".to_string(), min: 15, max: 15 }.evaluate(&c));
    assert!(!LsmCondition::NumericInRange { key: "n".to_string(), min: 16, max: 20 }.evaluate(&c));
    assert!(LsmCondition::Boolean { key: "flag".to_string(), value: true }.evaluate(&c));
    assert!(LsmCondition::Boolean { key: "missing".to_string(), value: false }.evaluate(&c));
    assert!(LsmCondition::Regex { key: "path".to_string(), pattern: "evil".to_string() }.evaluate(&c));
    assert!(LsmCondition::IpInCidr { key: "ip".to_string(), cidr: "0.0.0.0/0".to_string() }.evaluate(&c));
    assert!(!LsmCondition::IpInCidr { key: "ip".to_string(), cidr: "10.0.0.0/8".to_string() }.evaluate(&c));
    assert!(!LsmCondition::NumericEquals { key: "missing".to_string(), value: 0 }.evaluate(&c));
}

#[test]
fn highest_priority_matching_rule_decides() {
    let mut manager = LsmManager::new(LsmConfig::default());
    manager.add_rule(LsmRule::new("low", LsmHookType::FileOpen, LsmAction::Audit).with_priority(10)).unwrap();
    manager
        .add_rule(
            LsmRule::new("high", LsmHookType::FileOpen, LsmAction::Deny)
                .with_priority(50)
                .with_description("deny tmp")
                .with_condition(LsmCondition::StringPrefix { key: "path".to_string(), value: "/tmp".to_string() }),
        )
        .unwrap();
    manager.add_rule(LsmRule::new("tie", LsmHookType::FileOpen, LsmAction::Allow).with_priority(50)).unwrap();
    let ctx = context(&[("path", "/tmp/x"), ("pid", "42"), ("uid", "1000"), ("gid", "oops")]);
    let decision = manager.evaluate_hook(LsmHookType::FileOpen, &ctx);
    assert_eq!(decision.action, LsmAction::Deny);
    assert_eq!(decision.reason, "deny tmp");
    assert_eq!((decision.pid, decision.uid, decision.gid), (42, 1000, 0));
    assert_eq!(decision.context.get("path"), Some(&"/tmp/x".to_string()));

    let other = context(&[("path", "/home/x")]);
    let decision = manager.evaluate_hook(LsmHookType::FileOpen, &other);
    assert_eq!(decision.action, LsmAction::Allow);
    assert_eq!(decision.reason, "");

    let none = manager.evaluate_hook(LsmHookType::Mmap, &other);
    assert_eq!(none.action, LsmAction::Allow);
    assert_eq!(none.reason, "No matching rule");

    let stats = manager.get_stats();
    assert_eq!(stats.total_rules, 3);
    assert_eq!(stats.total_decisions, 2);
    assert_eq!((stats.denied, stats.allowed, stats.audited), (1, 1, 0));
    let recent = manager.list_decisions(1);
    assert_eq!(recent.len(), 1);
    assert_eq!(recent[0].action, LsmAction::Allow);
    assert_eq!(manager.list_decisions(10).len(), 2);
    manager.clear_decisions().unwrap();
    assert_eq!(manager.get_stats().total_decisions, 0);
}

#[test]
fn removing_a_rule_removes_the_first_of_its_name() {
    let mut manager = LsmManager::new(LsmConfig::default());
    manager.add_rule(LsmRule::new("a", LsmHookType::Brk, LsmAction::Deny)).unwrap();
    manager.add_rule(LsmRule::new("b", LsmHookType::Brk, LsmAction::Allow)).unwrap();
    manager.add_rule(LsmRule::new("a", LsmHookType::Mmap, LsmAction::Audit)).unwrap();
    assert_eq!(manager.remove_rule("a"), Ok(true));
    let rules = manager.list_rules();
    assert_eq!(rules.len(), 2);
    assert_eq!(rules[0].name, "b");
    assert_eq!(rules[1].hook_type, LsmHookType::Mmap);
    assert_eq!(manager.remove_rule("zzz"), Ok(false));
}

#[test]
fn rule_files_are_parsed_line_by_line() {
    let manager = LsmManager::new(LsmConfig::default());
    let text = "# comment\n\nno_tmp process_exec path=/tmp/x uid=5 junk -> DENY\nbad line\nwatch socket_bind -> Audit\nodd weird_hook -> nonsense\na -> allow\n";
    let rules = manager.parse_rules(text).unwrap();
    assert_eq!(rules.len(), 3);
    assert_eq!(rules[0].name, "no_tmp");
    assert_eq!(rules[0].hook_type, LsmHookType::ProcessExec);
    assert_eq!(rules[0].action, LsmAction::Deny);
    assert_eq!(rules[0].conditions.len(), 2);
    assert_eq!(rules[0].priority, 100);
    assert_eq!(rules[1].hook_type, LsmHookType::SocketBind);
    assert_eq!(rules[1].action, LsmAction::Audit);
    assert_eq!(rules[2].hook_type, LsmHookType::FileOpen);
    assert_eq!(rules[2].action, LsmAction::Deny);
    assert_eq!(manager.parse_condition("k=v"), Some(("k".to_string(), "v".to_string())));
    assert_eq!(manager.parse_condition("k=v=w"), None);
}

#[test]
fn loading_rules_falls_back_to_the_defaults() {
    let mut manager = LsmManager::new(LsmConfig::default());
    manager.initialize(Some(Ok("# nothing here\n".to_string()))).unwrap();
    let rules = manager.list_rules();
    assert_eq!(rules.len(), 4);
    assert_eq!(rules[0].name, "deny_exec_tmp");
    assert_eq!(rules[2].priority, 300);
    let exec = context(&[("path", "/tmp/run")]);
    assert_eq!(manager.evaluate_hook(LsmHookType::ProcessExec, &exec).action, LsmAction::Deny);
    let admin = context(&[("cap", "21"), ("uid", "1000")]);
    assert_eq!(manager.evaluate_hook(LsmHookType::Capable, &admin).action, LsmAction::Deny);
    let root = context(&[("cap", "21"), ("uid", "0")]);
    assert_eq!(manager.evaluate_hook(LsmHookType::Capable, &root).reason, "No matching rule");

    assert_eq!(
        manager.load_rules(Some(Err("denied".to_string()))),
        Err("Failed to read rules file: denied".to_string())
    );
    assert_eq!(manager.list_rules().len(), 4);
    manager.load_rules(None).unwrap();
    assert_eq!(manager.list_rules().len(), 4);
}

#[test]
fn audit_log_lines_are_formatted() {
    let manager = LsmManager::new(LsmConfig::default());
    let mut decision = LsmDecision::new(LsmHookType::SocketConnect, LsmAction::SilentDeny, "nope");
    decision.pid = 7;
    decision.uid = 8;
    decision.gid = 9;
    assert_eq!(
        manager.log_entry(&decision, 1700000000),
        Some("[1700000000] SILENT_DENY socket_connect pid=7 uid=8 gid=9 reason=\"nope\"\n".to_string())
    );
    let mut quiet = LsmConfig::default();
    quiet.audit_log = false;
    assert_eq!(LsmManager::new(quiet).log_entry(&decision, 1), None);
}

#[test]
fn lkm_manager_tracks_registration() {
    let config = LsmConfig::default();
    let mut lkm = LkmManager::new(&config);
    let lsmod = CommandOutput { success: true, stdout: "Module\nccze_lsm 1 0\n".to_string() };
    assert_eq!(lkm.is_loaded(Ok(lsmod)), Ok(true));
    assert_eq!(lkm.register_lsm(Some("lockdown,capability,yama")), Ok(false));
    assert_eq!(lkm.register_lsm(Some("capability,ccze")), Ok(true));
    assert_eq!(lkm.is_loaded(Err("gone".to_string())), Ok(true));
    assert!(LsmManager::new(config).get_lkm_manager().is_some());
    let mut off = LsmConfig::default();
    off.enabled = false;
    assert!(LsmManager::new(off).get_lkm_manager().is_none());
}

#[test]
fn capabilities_are_read_from_process_status() {
    let manager = CapabilityManager::new(LsmManager::new(LsmConfig::default()));
    let status = "Name:\tbash\nCapInh:\t0000000000000000\nCapPrm:\t0000000000200001\nCapEff:\t0000000000000000\n";
    assert_eq!(manager.has_capability(Some(status), 0), Ok(true));
    assert_eq!(manager.has_capability(Some(status), 21), Ok(true));
    assert_eq!(manager.has_capability(Some(status), 1), Ok(false));
    assert_eq!(manager.has_capability(None, 0), Ok(false));
    assert_eq!(
        manager.get_capabilities(Some(status)),
        Ok(vec!["CAP_CHOWN".to_string(), "CAP_SYS_ADMIN".to_string()])
    );
    assert!(!manager.check_capability_bit("ffffffffffffffff", 40));
    assert!(manager.check_capability_bit(" +1F ", 4));
    assert!(!manager.check_capability_bit("xyz", 0));
    assert_eq!(
        manager.drop_capability(1, 1),
        Err("Dropping capabilities requires CAP_SETPCAP privilege".to_string())
    );
}

#[test]
fn capsh_output_is_searched_for_the_capability_name() {
    let cap_manager = CapabilityManager::new(LsmManager::new(LsmConfig::default()));
    let out = |success: bool, text: &str| Ok(CommandOutput { success, stdout: text.to_string() });
    assert_eq!(
        cap_manager.check_capability_capsh(out(true, "Current: = cap_chown,CAP_SYS_ADMIN+ep"), 21),
        Ok(true)
    );
    assert_eq!(cap_manager.check_capability_capsh(out(true, "Current: ="), 21), Ok(false));
    assert_eq!(cap_manager.check_capability_capsh(out(false, "CAP_SYS_ADMIN"), 21), Ok(false));
    assert_eq!(
        cap_manager.check_capability_capsh(Err("not found".to_string()), 21),
        Err("Failed to check capability with capsh: not found".to_string())
    );
}

#[test]
fn command_output_decodes_bytes_lossily() {
    let o = CommandOutput::from_bytes(true, b"ok \xff done");
    assert!(o.success);
    assert_eq!(o.stdout, "ok \u{fffd} done");
    assert!(!CommandOutput::from_bytes(false, b"").success);
}
