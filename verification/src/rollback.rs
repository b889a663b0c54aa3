//! Transactional boot rollback: triggers, thresholds, the rollback manager's
//! attempts and state, known-good binary hashes, and the splitting of
//! configured commands.
//!
//! Running commands and writing the rollback log are the caller's. Severities,
//! entropies and thresholds are IEEE 754 doubles held as their bit patterns;
//! comparing them is the caller's.
use vstd::prelude::*;
use crate::clock::unix_now_secs;
use crate::config::{decode_lossy, utf8_lossy};
use crate::lsm::Context;
use crate::text::{
    chars_of, concat_str, copy_strings, count_char, count_char_exec, find_char, find_char_exec,
    lemma_find_char, lines, lines_of, split_words, substring, trim, trim_str, views, words,
};

verus! {

/// Rollback trigger types.
#[derive(Debug, Clone, Copy, PartialEq, Eq, Hash, Structural)]
pub enum RollbackTriggerType {
    /// Critical binary entropy spike detected
    BinaryEntropySpike,
    /// System service crash
    ServiceCrash,
    /// Kernel panic detected
    KernelPanic,
    /// Boot failure detected
    BootFailure,
    /// Package corruption detected
    PackageCorruption,
    /// Critical security vulnerability detected
    SecurityVulnerability,
    /// Configuration corruption detected
    ConfigCorruption,
}

/// The name of a trigger type, as it is displayed.
pub open spec fn trigger_name(t: RollbackTriggerType) -> Seq<char> {
    match t {
        RollbackTriggerType::BinaryEntropySpike => "binary_entropy_spike"@,
        RollbackTriggerType::ServiceCrash => "service_crash"@,
        RollbackTriggerType::KernelPanic => "kernel_panic"@,
        RollbackTriggerType::BootFailure => "boot_failure"@,
        RollbackTriggerType::PackageCorruption => "package_corruption"@,
        RollbackTriggerType::SecurityVulnerability => "security_vulnerability"@,
        RollbackTriggerType::ConfigCorruption => "config_corruption"@,
    }
}

impl RollbackTriggerType {
    /// The name of the trigger type, as it is displayed.
    pub fn as_str(&self) -> (s: &'static str)
        ensures
            s@ == trigger_name(*self),
    {
        match self {
            RollbackTriggerType::BinaryEntropySpike => "binary_entropy_spike",
            RollbackTriggerType::ServiceCrash => "service_crash",
            RollbackTriggerType::KernelPanic => "kernel_panic",
            RollbackTriggerType::BootFailure => "boot_failure",
            RollbackTriggerType::PackageCorruption => "package_corruption",
            RollbackTriggerType::SecurityVulnerability => "security_vulnerability",
            RollbackTriggerType::ConfigCorruption => "config_corruption",
        }
    }
}

/// Rollback state.
#[derive(Debug, Clone, Copy, PartialEq, Eq, Structural)]
pub enum RollbackState {
    /// System is in normal state
    Normal,
    /// Rollback has been triggered but not yet executed
    Triggered,
    /// Rollback is in progress
    InProgress,
    /// Rollback has been completed
    Completed,
    /// Rollback failed
    Failed,
}

/// Transactional update state.
#[derive(Debug, Clone, Copy, PartialEq, Eq, Structural)]
pub enum UpdateState {
    /// No update in progress
    Idle,
    /// Update is being downloaded
    Downloading,
    /// Update is being installed
    Installing,
    /// Update is ready to be activated
    Ready,
    /// Update has been activated
    Activated,
    /// Rollback has been triggered
    Rollback,
}

/// Package manager types.
#[derive(Debug, Clone, Copy, PartialEq, Eq, Structural)]
pub enum PackageManager {
    /// RPM-based systems (Fedora, RHEL, etc.)
    Rpm,
    /// DEB-based systems (Debian, Ubuntu, etc.)
    Deb,
    /// Arch Linux
    Pacman,
    /// openSUSE
    Zypper,
    /// NixOS
    Nix,
    /// Flatpak
    Flatpak,
    /// Snap
    Snap,
    /// Docker containers
    Docker,
    /// Transactional Update (openSUSE)
    TransactionalUpdate,
}

/// The name of a package manager, as it is displayed.
pub open spec fn package_manager_name(p: PackageManager) -> Seq<char> {
    match p {
        PackageManager::Rpm => "rpm"@,
        PackageManager::Deb => "deb"@,
        PackageManager::Pacman => "pacman"@,
        PackageManager::Zypper => "zypper"@,
        PackageManager::Nix => "nix"@,
        PackageManager::Flatpak => "flatpak"@,
        PackageManager::Snap => "snap"@,
        PackageManager::Docker => "docker"@,
        PackageManager::TransactionalUpdate => "transactional-update"@,
    }
}

impl PackageManager {
    /// The name of the package manager, as it is displayed.
    pub fn as_str(&self) -> (s: &'static str)
        ensures
            s@ == package_manager_name(*self),
    {
        match self {
            PackageManager::Rpm => "rpm",
            PackageManager::Deb => "deb",
            PackageManager::Pacman => "pacman",
            PackageManager::Zypper => "zypper",
            PackageManager::Nix => "nix",
            PackageManager::Flatpak => "flatpak",
            PackageManager::Snap => "snap",
            PackageManager::Docker => "docker",
            PackageManager::TransactionalUpdate => "transactional-update",
        }
    }
}

/// Package manager configuration.
#[derive(Debug, Clone)]
pub struct PackageManagerConfig {
    pub package_manager: PackageManager,
    pub rollback_command: String,
    pub status_command: String,
    pub update_command: String,
    pub recovery_command: String,
}

impl Default for PackageManagerConfig {
    /// RPM with the `transactional-update` commands and a reboot into the recovery entry.
    fn default() -> (c: Self)
        ensures
            c.package_manager == PackageManager::Rpm,
            c.rollback_command@ == "transactional-update rollback"@,
            c.status_command@ == "transactional-update status"@,
            c.update_command@ == "transactional-update dup"@,
            c.recovery_command@ == "systemctl reboot --boot-loader-entry=recovery"@,
    {
        PackageManagerConfig {
            package_manager: PackageManager::Rpm,
            rollback_command: String::from_str("transactional-update rollback"),
            status_command: String::from_str("transactional-update status"),
            update_command: String::from_str("transactional-update dup"),
            recovery_command: String::from_str("systemctl reboot --boot-loader-entry=recovery"),
        }
    }
}

/// Rollback statistics.
#[derive(Debug, Clone)]
pub struct RollbackStats {
    pub total_triggers: u64,
    pub critical_triggers: u64,
    pub current_state: UpdateState,
    pub rollback_attempts: u32,
    pub enabled: bool,
    pub auto_rollback: bool,
}

/// A configured command line as a program and its arguments: its
/// whitespace-separated words, the first being the program. An empty command
/// is an error.
pub fn split_command(command: &str) -> (r: Result<(String, Vec<String>), String>)
    ensures
        match r {
            Ok((program, args)) => words(command@).len() > 0 && program@ == words(command@)[0]
                && views(args@) == words(command@).drop_first(),
            Err(e) => words(command@).len() == 0 && e@ == "configured command is empty"@,
        },
{
    let mut ws = split_words(command);
    if ws.len() == 0 {
        return Err(String::from_str("configured command is empty"));
    }
    let ghost all = views(ws@);
    let program = ws.remove(0);
    assert(views(ws@) =~= all.drop_first());
    Ok((program, ws))
}

/// Entropy thresholds, as the bits of IEEE 754 doubles.
#[derive(Debug, Clone, Copy, PartialEq, Eq, Structural)]
pub struct SystemEntropyThresholds {
    /// Threshold for a binary entropy spike.
    pub binary_entropy_bits: u64,
    /// Threshold for service log entropy.
    pub service_entropy_bits: u64,
    /// Threshold for boot process entropy.
    pub boot_entropy_bits: u64,
    /// Threshold for configuration file entropy.
    pub config_entropy_bits: u64,
}

/// The bits of 0.95.
pub const BITS_0_95: u64 = 0x3fee_6666_6666_6666;

/// The bits of 1.0.
pub const BITS_1_0: u64 = 0x3ff0_0000_0000_0000;

impl Default for SystemEntropyThresholds {
    /// 0.95, 0.90, 0.85 and 0.80.
    fn default() -> (t: Self)
        ensures
            t == (SystemEntropyThresholds {
                binary_entropy_bits: BITS_0_95,
                service_entropy_bits: 0x3fec_cccc_cccc_cccd,
                boot_entropy_bits: 0x3feb_3333_3333_3333,
                config_entropy_bits: 0x3fe9_9999_9999_999a,
            }),
    {
        SystemEntropyThresholds {
            binary_entropy_bits: BITS_0_95,
            service_entropy_bits: 0x3fec_cccc_cccc_cccd,
            boot_entropy_bits: 0x3feb_3333_3333_3333,
            config_entropy_bits: 0x3fe9_9999_9999_999a,
        }
    }
}

/// Rollback configuration.
#[derive(Debug, Clone)]
pub struct RollbackConfig {
    pub enabled: bool,
    pub package_manager: PackageManagerConfig,
    pub thresholds: SystemEntropyThresholds,
    pub auto_rollback: bool,
    pub max_rollback_attempts: u32,
    /// Seconds to wait before forcing recovery.
    pub recovery_timeout: u64,
}

impl Default for RollbackConfig {
    fn default() -> (c: Self)
        ensures
            c.enabled,
            c.auto_rollback,
            c.max_rollback_attempts == 3,
            c.recovery_timeout == 300,
            c.package_manager.rollback_command@ == "transactional-update rollback"@,
            c.thresholds.binary_entropy_bits == BITS_0_95,
    {
        RollbackConfig {
            enabled: true,
            package_manager: PackageManagerConfig::default(),
            thresholds: SystemEntropyThresholds::default(),
            auto_rollback: true,
            max_rollback_attempts: 3,
            recovery_timeout: 300,
        }
    }
}

/// A recorded rollback trigger.
#[derive(Debug, Clone)]
pub struct RollbackTrigger {
    pub trigger_type: RollbackTriggerType,
    /// The severity, as the bits of an IEEE 754 double.
    pub severity_bits: u64,
    pub timestamp: u64,
    pub affected_packages: Vec<String>,
    pub affected_services: Vec<String>,
    pub description: String,
    pub state: RollbackState,
    pub rollback_target: String,
}

/// What a trigger record says.
pub struct TriggerView {
    pub trigger_type: RollbackTriggerType,
    pub severity_bits: u64,
    pub timestamp: u64,
    pub affected_packages: Seq<Seq<char>>,
    pub affected_services: Seq<Seq<char>>,
    pub description: Seq<char>,
    pub state: RollbackState,
    pub rollback_target: Seq<char>,
}

impl View for RollbackTrigger {
    type V = TriggerView;

    open spec fn view(&self) -> TriggerView {
        TriggerView {
            trigger_type: self.trigger_type,
            severity_bits: self.severity_bits,
            timestamp: self.timestamp,
            affected_packages: views(self.affected_packages@),
            affected_services: views(self.affected_services@),
            description: self.description@,
            state: self.state,
            rollback_target: self.rollback_target@,
        }
    }
}

impl RollbackTrigger {
    /// A trigger raised now.
    pub fn new(trigger_type: RollbackTriggerType, severity_bits: u64, description: &str) -> (t: Self)
        ensures
            t@ == raised(trigger_type, severity_bits, description@, t.timestamp),
    {
        RollbackTrigger::raised_at(trigger_type, severity_bits, description, unix_now_secs())
    }

    /// A trigger raised at `timestamp`.
    pub fn raised_at(trigger_type: RollbackTriggerType, severity_bits: u64, description: &str, timestamp: u64) -> (t: Self)
        ensures
            t@ == raised(trigger_type, severity_bits, description@, timestamp),
    {
        let t = RollbackTrigger {
            trigger_type,
            severity_bits,
            timestamp,
            affected_packages: Vec::new(),
            affected_services: Vec::new(),
            description: String::from_str(description),
            state: RollbackState::Triggered,
            rollback_target: String::new(),
        };
        assert(views(t.affected_packages@) =~= Seq::<Seq<char>>::empty());
        assert(views(t.affected_services@) =~= Seq::<Seq<char>>::empty());
        t
    }

    /// A copy of this record.
    pub fn copy(&self) -> (t: Self)
        ensures
            t@ == self@,
    {
        RollbackTrigger {
            trigger_type: self.trigger_type,
            severity_bits: self.severity_bits,
            timestamp: self.timestamp,
            affected_packages: copy_strings(&self.affected_packages),
            affected_services: copy_strings(&self.affected_services),
            description: self.description.clone(),
            state: self.state,
            rollback_target: self.rollback_target.clone(),
        }
    }
}

/// A trigger as raised: no affected packages or services, no target, triggered.
pub open spec fn raised(t: RollbackTriggerType, severity_bits: u64, description: Seq<char>, timestamp: u64) -> TriggerView {
    TriggerView {
        trigger_type: t,
        severity_bits,
        timestamp,
        affected_packages: Seq::empty(),
        affected_services: Seq::empty(),
        description,
        state: RollbackState::Triggered,
        rollback_target: Seq::empty(),
    }
}

/// The severity a trigger of a type must reach to roll back on its own:
/// the configured threshold for entropy spikes, service crashes and
/// configuration corruption, 0.95 for security vulnerabilities, and 1.0
/// otherwise.
pub open spec fn threshold_bits(t: RollbackTriggerType, th: SystemEntropyThresholds) -> u64 {
    match t {
        RollbackTriggerType::BinaryEntropySpike => th.binary_entropy_bits,
        RollbackTriggerType::ServiceCrash => th.service_entropy_bits,
        RollbackTriggerType::KernelPanic => BITS_1_0,
        RollbackTriggerType::BootFailure => BITS_1_0,
        RollbackTriggerType::PackageCorruption => BITS_1_0,
        RollbackTriggerType::SecurityVulnerability => BITS_0_95,
        RollbackTriggerType::ConfigCorruption => th.config_entropy_bits,
    }
}

/// Transactional rollback manager: the triggers recorded, the update state,
/// and the rollbacks performed.
#[derive(Debug)]
pub struct RollbackManager {
    config: RollbackConfig,
    triggers: Vec<RollbackTrigger>,
    current_state: UpdateState,
    rollback_attempts: u32,
}

impl RollbackManager {
    pub closed spec fn spec_config(&self) -> RollbackConfig {
        self.config
    }

    /// The triggers recorded, oldest first.
    pub closed spec fn triggers(&self) -> Seq<TriggerView> {
        self.triggers@.map_values(|t: RollbackTrigger| t@)
    }

    pub closed spec fn spec_state(&self) -> UpdateState {
        self.current_state
    }

    pub closed spec fn spec_attempts(&self) -> u32 {
        self.rollback_attempts
    }

    /// An idle manager without triggers or attempts.
    pub fn new(config: RollbackConfig) -> (m: Self)
        ensures
            m.spec_config() == config,
            m.triggers().len() == 0,
            m.spec_state() == UpdateState::Idle,
            m.spec_attempts() == 0,
    {
        let m = RollbackManager { config, triggers: Vec::new(), current_state: UpdateState::Idle, rollback_attempts: 0 };
        assert(m.triggers() =~= Seq::<TriggerView>::empty());
        m
    }

    /// The configuration.
    pub fn config(&self) -> (c: &RollbackConfig)
        ensures
            *c == self.spec_config(),
    {
        &self.config
    }

    /// The severity (its bits) a trigger of a type must reach to roll back on its own.
    pub fn get_threshold_for_trigger(&self, trigger_type: RollbackTriggerType) -> (b: u64)
        ensures
            b == threshold_bits(trigger_type, self.spec_config().thresholds),
    {
        match trigger_type {
            RollbackTriggerType::BinaryEntropySpike => self.config.thresholds.binary_entropy_bits,
            RollbackTriggerType::ServiceCrash => self.config.thresholds.service_entropy_bits,
            RollbackTriggerType::KernelPanic => BITS_1_0,
            RollbackTriggerType::BootFailure => BITS_1_0,
            RollbackTriggerType::PackageCorruption => BITS_1_0,
            RollbackTriggerType::SecurityVulnerability => BITS_0_95,
            RollbackTriggerType::ConfigCorruption => self.config.thresholds.config_entropy_bits,
        }
    }

    /// Whether a detected trigger rolls back, given whether its severity
    /// reached its threshold: only when rollback is enabled and automatic.
    pub fn should_trigger(&self, reached_threshold: bool) -> (b: bool)
        ensures
            b == (self.spec_config().enabled && self.spec_config().auto_rollback && reached_threshold),
    {
        self.config.enabled && self.config.auto_rollback && reached_threshold
    }

    /// Records a trigger.
    pub fn record_trigger(&mut self, trigger: RollbackTrigger) -> (r: Result<(), String>)
        ensures
            r is Ok,
            final(self).triggers() == old(self).triggers().push(trigger@),
            final(self).spec_config() == old(self).spec_config(),
            final(self).spec_state() == old(self).spec_state(),
            final(self).spec_attempts() == old(self).spec_attempts(),
    {
        let ghost before = self.triggers@;
        let ghost v = trigger@;
        self.triggers.push(trigger);
        assert(self.triggers() =~= before.map_values(|t: RollbackTrigger| t@).push(v));
        Ok(())
    }

    /// Starts a rollback for a trigger: refused once the configured number of
    /// rollbacks was performed; otherwise the trigger is recorded and the
    /// rollback command is returned as a program and its arguments (an empty
    /// command is an error).
    pub fn begin_rollback(&mut self, trigger: RollbackTrigger) -> (r: Result<(String, Vec<String>), String>)
        ensures
            final(self).spec_config() == old(self).spec_config(),
            final(self).spec_state() == old(self).spec_state(),
            final(self).spec_attempts() == old(self).spec_attempts(),
            old(self).spec_attempts() >= old(self).spec_config().max_rollback_attempts ==> (r matches Err(e)
                && e@ == "Maximum rollback attempts exceeded"@ && final(self).triggers() == old(self).triggers()),
            old(self).spec_attempts() < old(self).spec_config().max_rollback_attempts ==> final(self).triggers()
                == old(self).triggers().push(trigger@) && match r {
                Ok((program, args)) => {
                    let ws = words(old(self).spec_config().package_manager.rollback_command@);
                    ws.len() > 0 && program@ == ws[0] && views(args@) == ws.drop_first()
                },
                Err(e) => words(old(self).spec_config().package_manager.rollback_command@).len() == 0
                    && e@ == "Failed to execute rollback: "@ + "configured command is empty"@,
            },
    {
        if self.rollback_attempts >= self.config.max_rollback_attempts {
            return Err(String::from_str("Maximum rollback attempts exceeded"));
        }
        let _ = self.record_trigger(trigger);
        match split_command(self.config.package_manager.rollback_command.as_str()) {
            Ok(c) => Ok(c),
            Err(e) => Err(concat_str("Failed to execute rollback: ", e.as_str())),
        }
    }

    /// Finishes a rollback with the outcome of its command: whether it
    /// succeeded and what it wrote to standard error, or why it could not run.
    /// A success counts the attempt and puts the system in the rollback state.
    pub fn finish_rollback(&mut self, outcome: Result<(bool, Vec<u8>), String>) -> (r: Result<bool, String>)
        requires
            old(self).spec_attempts() < old(self).spec_config().max_rollback_attempts,
        ensures
            final(self).spec_config() == old(self).spec_config(),
            final(self).triggers() == old(self).triggers(),
            final(self).spec_attempts() <= final(self).spec_config().max_rollback_attempts,
            match outcome {
                Ok((true, _)) => r == Ok::<bool, String>(true) && final(self).spec_state() == UpdateState::Rollback
                    && final(self).spec_attempts() == old(self).spec_attempts() + 1,
                Ok((false, stderr)) => r matches Err(e) && e@ == "Rollback failed: "@ + utf8_lossy(stderr@)
                    && final(self).spec_state() == old(self).spec_state() && final(self).spec_attempts()
                    == old(self).spec_attempts(),
                Err(why) => r matches Err(e) && e@ == "Failed to execute rollback: "@ + why@
                    && final(self).spec_state() == old(self).spec_state() && final(self).spec_attempts()
                    == old(self).spec_attempts(),
            },
    {
        match outcome {
            Ok((true, _)) => {
                self.current_state = UpdateState::Rollback;
                self.rollback_attempts = self.rollback_attempts + 1;
                Ok(true)
            },
            Ok((false, stderr)) => {
                let text = decode_lossy(stderr.as_slice());
                Err(concat_str("Rollback failed: ", text.as_str()))
            },
            Err(why) => Err(concat_str("Failed to execute rollback: ", why.as_str())),
        }
    }

    /// The update state.
    pub fn check_system_state(&self) -> (r: Result<UpdateState, String>)
        ensures
            r == Ok::<UpdateState, String>(self.spec_state()),
    {
        Ok(self.current_state)
    }

    /// Copies of the triggers, oldest first.
    pub fn list_triggers(&self) -> (r: Result<Vec<RollbackTrigger>, String>)
        ensures
            r matches Ok(v) && v@.map_values(|t: RollbackTrigger| t@) == self.triggers(),
    {
        let mut v: Vec<RollbackTrigger> = Vec::new();
        let mut i: usize = 0;
        while i < self.triggers.len()
            invariant
                i <= self.triggers@.len(),
                v@.map_values(|t: RollbackTrigger| t@) == self.triggers().subrange(0, i as int),
            decreases self.triggers@.len() - i,
        {
            let ghost before = v@;
            v.push(self.triggers[i].copy());
            assert(v@.map_values(|t: RollbackTrigger| t@) =~= before.map_values(|t: RollbackTrigger| t@).push(
                self.triggers@[i as int]@,
            ));
            assert(self.triggers().subrange(0, i + 1) =~= self.triggers().subrange(0, i as int).push(
                self.triggers@[i as int]@,
            ));
            i = i + 1;
        }
        assert(self.triggers().subrange(0, i as int) =~= self.triggers());
        Ok(v)
    }

    /// Forgets the triggers.
    pub fn clear_triggers(&mut self) -> (r: Result<(), String>)
        ensures
            r is Ok,
            final(self).triggers().len() == 0,
            final(self).spec_config() == old(self).spec_config(),
            final(self).spec_state() == old(self).spec_state(),
            final(self).spec_attempts() == old(self).spec_attempts(),
    {
        self.triggers = Vec::new();
        assert(self.triggers() =~= Seq::<TriggerView>::empty());
        Ok(())
    }

    /// The statistics, given how many triggers were critical (a severity of at
    /// least 0.9, which the caller compares).
    pub fn get_stats(&self, critical_triggers: u64) -> (st: RollbackStats)
        ensures
            st.total_triggers == self.triggers().len(),
            st.critical_triggers == critical_triggers,
            st.current_state == self.spec_state(),
            st.rollback_attempts == self.spec_attempts(),
            st.enabled == self.spec_config().enabled,
            st.auto_rollback == self.spec_config().auto_rollback,
    {
        RollbackStats {
            total_triggers: self.triggers.len() as u64,
            critical_triggers,
            current_state: self.current_state,
            rollback_attempts: self.rollback_attempts,
            enabled: self.config.enabled,
            auto_rollback: self.config.auto_rollback,
        }
    }
}

/// The path and hash a line of a known-good hash list gives: a line with
/// exactly one `:`, both sides trimmed.
pub open spec fn hash_line(line: Seq<char>) -> Option<(Seq<char>, Seq<char>)> {
    if count_char(line, ':') == 1 {
        match find_char(line, ':', 0) {
            Some(k) => Some((trim(line.subrange(0, k)), trim(line.subrange(k + 1, line.len() as int)))),
            None => None,
        }
    } else {
        None
    }
}

/// The known-good hashes after reading lines into `m`, a later line for a
/// path replacing an earlier one.
pub open spec fn hashes_after(m: Map<Seq<char>, Seq<char>>, ls: Seq<Seq<char>>) -> Map<Seq<char>, Seq<char>>
    decreases ls.len(),
{
    if ls.len() == 0 {
        m
    } else {
        let before = hashes_after(m, ls.drop_last());
        match hash_line(ls.last()) {
            Some((k, v)) => before.insert(k, v),
            None => before,
        }
    }
}

/// Binary entropy checker: known-good hashes of binaries and a baseline
/// entropy (its bits).
#[derive(Debug)]
pub struct BinaryEntropyChecker {
    known_good_hashes: Context,
    baseline_entropy_bits: u64,
}

impl BinaryEntropyChecker {
    pub closed spec fn hashes(&self) -> Map<Seq<char>, Seq<char>> {
        self.known_good_hashes@
    }

    pub closed spec fn wf(&self) -> bool {
        self.known_good_hashes.wf()
    }

    pub closed spec fn spec_baseline(&self) -> u64 {
        self.baseline_entropy_bits
    }

    /// A checker without known-good hashes.
    pub fn new(baseline_entropy_bits: u64) -> (c: Self)
        ensures
            c.wf(),
            c.hashes() == Map::<Seq<char>, Seq<char>>::empty(),
            c.spec_baseline() == baseline_entropy_bits,
    {
        BinaryEntropyChecker { known_good_hashes: Context::new(), baseline_entropy_bits }
    }

    /// The baseline entropy's bits.
    pub fn baseline_entropy(&self) -> (b: u64)
        ensures
            b == self.spec_baseline(),
    {
        self.baseline_entropy_bits
    }

    /// Reads `path: hash` lines (the contents of a known-good hash file);
    /// other lines are skipped.
    pub fn load_known_good_hashes(&mut self, contents: &str)
        requires
            old(self).wf(),
        ensures
            final(self).wf(),
            final(self).hashes() == hashes_after(old(self).hashes(), lines(contents@)),
            final(self).spec_baseline() == old(self).spec_baseline(),
    {
        let ls = lines_of(contents);
        let ghost lv = views(ls@);
        let ghost start = self.hashes();
        let mut i: usize = 0;
        while i < ls.len()
            invariant
                i <= ls@.len(),
                lv == views(ls@),
                lv == lines(contents@),
                self.wf(),
                self.hashes() == hashes_after(start, lv.subrange(0, i as int)),
                self.spec_baseline() == old(self).spec_baseline(),
            decreases ls@.len() - i,
        {
            assert(lv.subrange(0, i + 1).drop_last() =~= lv.subrange(0, i as int));
            assert(lv.subrange(0, i + 1).last() == ls@[i as int]@);
            let cs = chars_of(ls[i].as_str());
            let n = cs.len();
            assert(cs@.subrange(0, n as int) =~= cs@);
            if count_char_exec(cs.as_slice(), ':', 0, n) == 1 {
                proof {
                    lemma_find_char(cs@, ':', 0);
                }
                match find_char_exec(cs.as_slice(), ':', 0) {
                    Some(k) => {
                        let path = trim_str(substring(ls[i].as_str(), 0, k).as_str());
                        let hash = trim_str(substring(ls[i].as_str(), k + 1, n).as_str());
                        self.known_good_hashes.insert(path.as_str(), hash.as_str());
                    },
                    None => {},
                }
            }
            i = i + 1;
        }
        assert(lv.subrange(0, i as int) =~= lv);
    }

    /// Whether a binary's hash is its known-good hash.
    pub fn is_known_good(&self, binary_path: &str, hash: &str) -> (b: bool)
        requires
            self.wf(),
        ensures
            b == (self.hashes().contains_key(binary_path@) && self.hashes()[binary_path@] == hash@),
    {
        match self.known_good_hashes.get(binary_path) {
            Some(h) => crate::parser::same_text(h.as_str(), hash),
            None => false,
        }
    }
}

} // verus!
