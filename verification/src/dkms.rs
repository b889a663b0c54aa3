//! Kernel module bookkeeping for the modules ccze-rs relies on (XDP, zRAM,
//! eBPF): module definitions, status classification from probe results, and
//! the parsing of `lsmod` output and modprobe blacklists.
//!
//! Running `lsmod`, `modprobe`, `modinfo` and `dkms` is left to the caller,
//! which hands the outcomes to the functions here.
use vstd::prelude::*;
use crate::clock::unix_now_secs;
use crate::config::{decode_lossy, utf8_lossy};
use crate::text::{
    lines, lines_of, words, split_words, views, concat_str, copy_strings, contains_text,
    chars_of, contains_exec,
};

verus! {

/// Kernel module status.
#[derive(Debug, Clone, Copy, PartialEq, Eq, Structural)]
pub enum ModuleStatus {
    /// Module is not loaded or available
    NotAvailable,
    /// Module is loaded and active
    Loaded,
    /// Module is available but not currently loaded
    Available,
    /// Module failed to load
    Failed,
    /// Module is blacklisted
    Blacklisted,
}

/// Kernel module information.
#[derive(Debug, Clone)]
pub struct KernelModule {
    pub name: String,
    pub description: String,
    pub version: String,
    pub parameters: Vec<(String, String)>,
    pub dependencies: Vec<String>,
    pub status: ModuleStatus,
    pub last_checked: u64,
}

impl KernelModule {
    /// A fresh record for a module that has not been found yet, stamped with the current time.
    pub fn new(name: &str, description: &str) -> (m: Self)
        ensures
            m.name@ == name@,
            m.description@ == description@,
            m.version@ == Seq::<char>::empty(),
            m.parameters@.len() == 0,
            m.dependencies@.len() == 0,
            m.status == ModuleStatus::NotAvailable,
    {
        KernelModule {
            name: String::from_str(name),
            description: String::from_str(description),
            version: String::new(),
            parameters: Vec::new(),
            dependencies: Vec::new(),
            status: ModuleStatus::NotAvailable,
            last_checked: unix_now_secs(),
        }
    }

    /// Check if module is currently loaded.
    pub fn is_loaded(&self) -> (b: bool)
        ensures
            b == (self.status == ModuleStatus::Loaded),
    {
        self.status == ModuleStatus::Loaded
    }

    /// Check if module is available (loaded or can be loaded).
    pub fn is_available(&self) -> (b: bool)
        ensures
            b == (self.status == ModuleStatus::Loaded || self.status == ModuleStatus::Available),
    {
        self.status == ModuleStatus::Loaded || self.status == ModuleStatus::Available
    }

    /// A copy of this record.
    pub fn duplicate(&self) -> (m: Self)
        ensures
            same_module(m, *self),
    {
        let mut parameters: Vec<(String, String)> = Vec::new();
        let mut i: usize = 0;
        while i < self.parameters.len()
            invariant
                i <= self.parameters@.len(),
                parameters@ == self.parameters@.subrange(0, i as int),
            decreases self.parameters@.len() - i,
        {
            let (k, v) = &self.parameters[i];
            parameters.push((k.clone(), v.clone()));
            assert(parameters@ =~= self.parameters@.subrange(0, i + 1));
            i = i + 1;
        }
        assert(self.parameters@.subrange(0, self.parameters@.len() as int) =~= self.parameters@);
        KernelModule {
            name: self.name.clone(),
            description: self.description.clone(),
            version: self.version.clone(),
            parameters,
            dependencies: copy_strings(&self.dependencies),
            status: self.status,
            last_checked: self.last_checked,
        }
    }
}

/// Two records agree in every field.
pub open spec fn same_module(a: KernelModule, b: KernelModule) -> bool {
    &&& a.name@ == b.name@
    &&& a.description@ == b.description@
    &&& a.version@ == b.version@
    &&& a.parameters@ == b.parameters@
    &&& a.dependencies@ == b.dependencies@
    &&& a.status == b.status
    &&& a.last_checked == b.last_checked
}

/// Module definition for DKMS.
#[derive(Debug, Clone)]
pub struct ModuleDefinition {
    pub name: String,
    pub description: String,
    pub version: String,
    pub dkms_name: Option<String>,
    pub parameters: Vec<String>,
    pub dependencies: Vec<String>,
    pub required: bool,
}

impl ModuleDefinition {
    /// A required module with no version, parameters or dependencies.
    pub fn new(name: &str, description: &str) -> (d: Self)
        ensures
            d.name@ == name@,
            d.description@ == description@,
            d.version@ == Seq::<char>::empty(),
            d.dkms_name is None,
            d.parameters@.len() == 0,
            d.dependencies@.len() == 0,
            d.required,
    {
        ModuleDefinition {
            name: String::from_str(name),
            description: String::from_str(description),
            version: String::new(),
            dkms_name: None,
            parameters: Vec::new(),
            dependencies: Vec::new(),
            required: true,
        }
    }

    /// XDP module definition: version 1.0, depends on `bpf`.
    pub fn xdp() -> (d: Self)
        ensures
            d.name@ == "xdp"@,
            d.description@ == "XDP (eXpress Data Path) support"@,
            d.version@ == "1.0"@,
            d.parameters@.len() == 0,
            views(d.dependencies@) == seq!["bpf"@],
            d.required,
    {
        let mut module = Self::new("xdp", "XDP (eXpress Data Path) support");
        module.version = String::from_str("1.0");
        module.dependencies = vec![String::from_str("bpf")];
        module.required = true;
        assert(views(module.dependencies@) =~= seq!["bpf"@]);
        module
    }

    /// zRAM module definition: version 1.0 with parameter `num_devices=32`.
    pub fn zram() -> (d: Self)
        ensures
            d.name@ == "zram"@,
            d.description@ == "Compressed RAM disk support"@,
            d.version@ == "1.0"@,
            views(d.parameters@) == seq!["num_devices=32"@],
            d.dependencies@.len() == 0,
            d.required,
    {
        let mut module = Self::new("zram", "Compressed RAM disk support");
        module.version = String::from_str("1.0");
        module.parameters = vec![String::from_str("num_devices=32")];
        module.required = true;
        assert(views(module.parameters@) =~= seq!["num_devices=32"@]);
        module
    }

    /// eBPF module definition: version 1.0.
    pub fn bpf() -> (d: Self)
        ensures
            d.name@ == "bpf"@,
            d.description@ == "eBPF support"@,
            d.version@ == "1.0"@,
            d.parameters@.len() == 0,
            d.dependencies@.len() == 0,
            d.required,
    {
        let mut module = Self::new("bpf", "eBPF support");
        module.version = String::from_str("1.0");
        module.required = true;
        module
    }
}

/// DKMS configuration.
#[derive(Debug, Clone)]
pub struct DkmsConfig {
    pub enabled: bool,
    pub auto_load: bool,
    pub modules: Vec<ModuleDefinition>,
    /// Directory of the installed modules.
    pub module_dir: String,
    pub dkms_command: String,
    pub modprobe_command: String,
    pub rmmod_command: String,
    pub lsmod_command: String,
}

impl Default for DkmsConfig {
    fn default() -> (c: Self)
        ensures
            c.enabled,
            c.auto_load,
            c.modules@.len() == 3,
            c.modules@[0].name@ == "xdp"@,
            c.modules@[1].name@ == "zram"@,
            c.modules@[2].name@ == "bpf"@,
            forall|i: int| 0 <= i < 3 ==> (#[trigger] c.modules@[i]).required,
            c.module_dir@ == "/lib/modules"@,
            c.dkms_command@ == "dkms"@,
            c.modprobe_command@ == "modprobe"@,
            c.rmmod_command@ == "rmmod"@,
            c.lsmod_command@ == "lsmod"@,
    {
        DkmsConfig {
            enabled: true,
            auto_load: true,
            modules: vec![
                ModuleDefinition::new("xdp", "XDP (eXpress Data Path) support"),
                ModuleDefinition::new("zram", "Compressed RAM disk support"),
                ModuleDefinition::new("bpf", "eBPF support"),
            ],
            module_dir: String::from_str("/lib/modules"),
            dkms_command: String::from_str("dkms"),
            modprobe_command: String::from_str("modprobe"),
            rmmod_command: String::from_str("rmmod"),
            lsmod_command: String::from_str("lsmod"),
        }
    }
}

/// The outcome of running a command: whether it exited successfully, and its
/// standard output (lossily decoded).
#[derive(Debug, Clone)]
pub struct CommandOutput {
    pub success: bool,
    pub stdout: String,
}

impl CommandOutput {
    /// The outcome of a command from its exit status and the raw bytes of its
    /// output, decoded as UTF-8 with each invalid sequence replaced by U+FFFD.
    pub fn from_bytes(success: bool, output: &[u8]) -> (o: Self)
        ensures
            o.success == success,
            o.stdout@ == utf8_lossy(output@),
    {
        CommandOutput { success, stdout: decode_lossy(output) }
    }
}

/// What probing a module found out.
#[derive(Debug, Clone, Copy, PartialEq, Eq, Structural)]
pub struct ModuleProbe {
    /// `lsmod` lists the module.
    pub loaded: bool,
    /// `modinfo` knows the module.
    pub available: bool,
    /// A modprobe configuration file blacklists the module.
    pub blacklisted: bool,
    /// `modprobe --dry-run` succeeds for the module.
    pub dry_run_ok: bool,
}

/// The status a probe implies: loaded before available before blacklisted.
pub open spec fn probe_status(p: ModuleProbe) -> ModuleStatus {
    if p.loaded {
        ModuleStatus::Loaded
    } else if p.available {
        ModuleStatus::Available
    } else if p.blacklisted {
        ModuleStatus::Blacklisted
    } else {
        ModuleStatus::NotAvailable
    }
}

/// The status after a `modprobe --dry-run`: when it succeeds the module is loaded
/// or available, otherwise `modinfo` decides between available and not available.
pub open spec fn dry_run_status(dry_run_ok: bool, loaded: bool, info_ok: bool) -> ModuleStatus {
    if dry_run_ok {
        if loaded {
            ModuleStatus::Loaded
        } else {
            ModuleStatus::Available
        }
    } else if info_ok {
        ModuleStatus::Available
    } else {
        ModuleStatus::NotAvailable
    }
}

/// The status a probe gives a module: by `check_module` when DKMS is
/// available, by `check_module_with_modprobe` otherwise.
pub open spec fn checked_status(dkms_available: bool, p: ModuleProbe) -> ModuleStatus {
    if dkms_available {
        probe_status(p)
    } else {
        dry_run_status(p.dry_run_ok, p.loaded, p.available)
    }
}

/// No later definition has the same name as the `k`-th.
pub open spec fn last_with_name(defs: Seq<ModuleDefinition>, k: int) -> bool {
    forall|j: int| k < j < defs.len() ==> defs[j].name@ != defs[k].name@
}

/// `lsmod` output lists the module: after the header line, some line's first word is its name.
pub open spec fn lsmod_lists(output: Seq<char>, name: Seq<char>) -> bool {
    exists|k: int|
        1 <= k < lines(output).len() && words(#[trigger] lines(output)[k]).len() > 0 && words(
            lines(output)[k],
        )[0] == name
}

/// A modprobe configuration text blacklists the module, or installs it as `/bin/true` or `/bin/false`.
pub open spec fn config_blacklists(contents: Seq<char>, name: Seq<char>) -> bool {
    contains_text(contents, "blacklist "@ + name) || contains_text(
        contents,
        "install "@ + name + " /bin/true"@,
    ) || contains_text(contents, "install "@ + name + " /bin/false"@)
}

/// Decides whether `lsmod` output lists a module.
pub fn lsmod_lists_module(output: &str, module_name: &str) -> (b: bool)
    ensures
        b == lsmod_lists(output@, module_name@),
{
    let all = lines_of(output);
    let mut k: usize = 1;
    while k < all.len()
        invariant
            views(all@) == lines(output@),
            1 <= k,
            forall|j: int|
                1 <= j < k && j < lines(output@).len() ==> !(words(#[trigger] lines(output@)[j]).len()
                    > 0 && words(lines(output@)[j])[0] == module_name@),
        decreases all@.len() - k,
    {
        assert(views(all@)[k as int] == all@[k as int]@);
        let ws = split_words(all[k].as_str());
        if ws.len() > 0 {
            assert(views(ws@)[0] == ws@[0]@);
            if crate::parser::same_text(ws[0].as_str(), module_name) {
                return true;
            }
        }
        k = k + 1;
    }
    false
}

/// Decides whether a modprobe configuration text blacklists a module.
pub fn blacklists_module(contents: &str, module_name: &str) -> (b: bool)
    ensures
        b == config_blacklists(contents@, module_name@),
{
    let text = chars_of(contents);
    let a = concat_str("blacklist ", module_name);
    let b1 = concat_str(&concat_str("install ", module_name), " /bin/true");
    let b2 = concat_str(&concat_str("install ", module_name), " /bin/false");
    contains_exec(text.as_slice(), chars_of(a.as_str()).as_slice()) || contains_exec(
        text.as_slice(),
        chars_of(b1.as_str()).as_slice(),
    ) || contains_exec(text.as_slice(), chars_of(b2.as_str()).as_slice())
}

/// DKMS manager: the configuration and the table of checked modules.
pub struct DkmsManager {
    config: DkmsConfig,
    modules: Vec<KernelModule>,
}

/// No two records share a name.
pub open spec fn names_unique(s: Seq<KernelModule>) -> bool {
    forall|i: int, j: int| 0 <= i < j < s.len() ==> s[i].name@ != s[j].name@
}

/// The index of the record named `name`.
pub open spec fn index_of(s: Seq<KernelModule>, name: Seq<char>) -> Option<int> {
    if exists|i: int| 0 <= i < s.len() && s[i].name@ == name {
        Some(choose|i: int| 0 <= i < s.len() && s[i].name@ == name)
    } else {
        None
    }
}

/// In a table with unique names, a record is found at its own index.
pub proof fn lemma_index_of(s: Seq<KernelModule>, i: int)
    requires
        names_unique(s),
        0 <= i < s.len(),
    ensures
        index_of(s, s[i].name@) == Some(i),
{
    let n = s[i].name@;
    assert(0 <= i < s.len() && s[i].name@ == n);
    let j = choose|j: int| 0 <= j < s.len() && s[j].name@ == n;
    if j < i {
        assert(s[j].name@ != s[i].name@);
    } else if i < j {
        assert(s[i].name@ != s[j].name@);
    }
}

/// The status counts of a list of records: (loaded, available, failed).
pub open spec fn status_counts(s: Seq<KernelModule>) -> (nat, nat, nat)
    decreases s.len(),
{
    if s.len() == 0 {
        (0, 0, 0)
    } else {
        let c = status_counts(s.drop_last());
        let m = s.last();
        (
            c.0 + if m.status == ModuleStatus::Loaded { 1nat } else { 0nat },
            c.1 + if m.status == ModuleStatus::Loaded || m.status == ModuleStatus::Available {
                1nat
            } else {
                0nat
            },
            c.2 + if m.status == ModuleStatus::Failed { 1nat } else { 0nat },
        )
    }
}

/// DKMS status.
#[derive(Debug, Clone)]
pub struct DkmsStatus {
    pub enabled: bool,
    pub dkms_available: bool,
    pub total_modules: usize,
    pub loaded_modules: usize,
    pub available_modules: usize,
    pub failed_modules: usize,
}

impl DkmsManager {
    /// The checked modules.
    pub closed spec fn table(&self) -> Seq<KernelModule> {
        self.modules@
    }

    pub closed spec fn spec_config(&self) -> DkmsConfig {
        self.config
    }

    /// The table has at most one record per name.
    pub closed spec fn wf(&self) -> bool {
        names_unique(self.modules@)
    }

    /// A manager with an empty module table.
    pub fn new(config: DkmsConfig) -> (m: Self)
        ensures
            m.table().len() == 0,
            m.spec_config() == config,
            m.wf(),
    {
        DkmsManager { config, modules: Vec::new() }
    }

    /// The configuration.
    pub fn config(&self) -> (c: &DkmsConfig)
        ensures
            *c == self.spec_config(),
    {
        &self.config
    }

    /// Records a checked module, replacing the record of the same name.
    pub fn record_module(&mut self, module: KernelModule)
        requires
            old(self).wf(),
        ensures
            final(self).wf(),
            final(self).spec_config() == old(self).spec_config(),
            index_of(final(self).table(), module.name@) is Some,
            final(self).table()[index_of(final(self).table(), module.name@).unwrap()] == module,
            forall|n: Seq<char>|
                n != module.name@ ==> #[trigger] index_of(final(self).table(), n) is Some == index_of(
                    old(self).table(),
                    n,
                ) is Some,
            forall|n: Seq<char>|
                n != module.name@ && index_of(old(self).table(), n) is Some ==> final(self).table()[index_of(
                    final(self).table(),
                    n,
                ).unwrap()] == #[trigger] old(self).table()[index_of(old(self).table(), n).unwrap()],
    {
        let ghost before = self.modules@;
        let mut i: usize = 0;
        while i < self.modules.len()
            invariant
                i <= self.modules@.len(),
                self.modules@ == before,
                before == old(self).modules@,
                self.config == old(self).config,
                names_unique(before),
                forall|j: int| 0 <= j < i ==> self.modules@[j].name@ != module.name@,
            decreases self.modules@.len() - i,
        {
            if crate::parser::same_text(self.modules[i].name.as_str(), module.name.as_str()) {
                let ghost name = module.name@;
                self.modules.set(i, module);
                proof {
                    assert(self.modules@[i as int].name@ == name);
                    assert forall|j: int| 0 <= j < self.modules@.len() implies (
                    #[trigger] self.modules@[j]).name@ == before[j].name@ by {}
                    assert(names_unique(self.modules@));
                    lemma_index_of(self.modules@, i as int);
                    assert forall|n: Seq<char>| n != name implies #[trigger] index_of(self.modules@, n)
                        is Some == index_of(before, n) is Some by {
                        if index_of(before, n) is Some {
                            let k = index_of(before, n).unwrap();
                            assert(self.modules@[k].name@ == n);
                        }
                        if index_of(self.modules@, n) is Some {
                            let k = index_of(self.modules@, n).unwrap();
                            assert(before[k].name@ == n);
                        }
                    }
                    assert forall|n: Seq<char>|
                        n != name && index_of(before, n) is Some implies self.modules@[index_of(
                        self.modules@,
                        n,
                    ).unwrap()] == #[trigger] before[index_of(before, n).unwrap()] by {
                        let k = index_of(before, n).unwrap();
                        assert(self.modules@[k].name@ == n);
                        lemma_index_of(self.modules@, k);
                    }
                }
                return;
            }
            i = i + 1;
        }
        let ghost name = module.name@;
        self.modules.push(module);
        proof {
            let last = before.len() as int;
            assert(self.modules@[last].name@ == name);
            assert(names_unique(self.modules@)) by {
                assert forall|a: int, b: int| 0 <= a < b < self.modules@.len() implies
                    self.modules@[a].name@ != self.modules@[b].name@ by {
                    if b < last {
                        assert(self.modules@[a] == before[a] && self.modules@[b] == before[b]);
                    }
                }
            }
            lemma_index_of(self.modules@, last);
            assert forall|n: Seq<char>| n != name implies #[trigger] index_of(self.modules@, n) is Some
                == index_of(before, n) is Some by {
                if index_of(before, n) is Some {
                    let k = index_of(before, n).unwrap();
                    assert(self.modules@[k].name@ == n);
                }
                if index_of(self.modules@, n) is Some {
                    let k = index_of(self.modules@, n).unwrap();
                    assert(k < last);
                    assert(before[k].name@ == n);
                }
            }
            assert forall|n: Seq<char>|
                n != name && index_of(before, n) is Some implies self.modules@[index_of(
                self.modules@,
                n,
            ).unwrap()] == #[trigger] before[index_of(before, n).unwrap()] by {
                let k = index_of(before, n).unwrap();
                assert(self.modules@[k].name@ == n);
                lemma_index_of(self.modules@, k);
            }
        }
    }

    /// Checks every configured module when the manager is enabled: with DKMS
    /// available each status comes from `check_module`, otherwise from
    /// `check_module_with_modprobe`; `probes[i]` is what probing the `i`-th
    /// configured module found. A disabled manager stays as it is.
    pub fn initialize(&mut self, dkms_available: bool, probes: &Vec<ModuleProbe>) -> (r: Result<
        (),
        String,
    >)
        requires
            old(self).wf(),
            old(self).spec_config().enabled ==> probes@.len() == old(
                self,
            ).spec_config().modules@.len(),
        ensures
            r is Ok,
            final(self).wf(),
            final(self).spec_config() == old(self).spec_config(),
            !old(self).spec_config().enabled ==> final(self).table() == old(self).table(),
            old(self).spec_config().enabled ==> forall|i: int|
                0 <= i < probes@.len() ==> index_of(
                    final(self).table(),
                    (#[trigger] old(self).spec_config().modules@[i]).name@,
                ) is Some,
            old(self).spec_config().enabled ==> forall|i: int|
                0 <= i < probes@.len() && last_with_name(old(self).spec_config().modules@, i)
                    ==> final(self).table()[index_of(
                    final(self).table(),
                    (#[trigger] old(self).spec_config().modules@[i]).name@,
                ).unwrap()].status == checked_status(dkms_available, probes@[i]),
            old(self).spec_config().enabled ==> forall|n: Seq<char>|
                (forall|i: int|
                    0 <= i < probes@.len() ==> (#[trigger] old(self).spec_config().modules@[i]).name@
                        != n) ==> #[trigger] index_of(final(self).table(), n) is Some == index_of(
                    old(self).table(),
                    n,
                ) is Some,
    {
        if !self.config.enabled {
            return Ok(());
        }
        let ghost defs = self.config.modules@;
        let ghost start = self.modules@;
        let n = self.config.modules.len();
        let mut i: usize = 0;
        while i < n
            invariant
                self.wf(),
                self.spec_config() == old(self).spec_config(),
                defs == self.spec_config().modules@,
                start == old(self).table(),
                n == defs.len(),
                probes@.len() == n,
                i <= n,
                forall|k: int|
                    0 <= k < i ==> index_of(self.table(), (#[trigger] defs[k]).name@) is Some,
                forall|k: int|
                    0 <= k < i && (forall|j: int| k < j < i ==> defs[j].name@ != defs[k].name@)
                        ==> self.table()[index_of(
                        self.table(),
                        (#[trigger] defs[k]).name@,
                    ).unwrap()].status == checked_status(dkms_available, probes@[k]),
                forall|m: Seq<char>|
                    (forall|k: int| 0 <= k < i ==> (#[trigger] defs[k]).name@ != m)
                        ==> #[trigger] index_of(self.table(), m) is Some == index_of(start, m) is Some,
            decreases n - i,
        {
            let module = if dkms_available {
                self.check_module(self.config.modules[i].name.as_str(), probes[i]).unwrap()
            } else {
                self.check_module_with_modprobe(self.config.modules[i].name.as_str(), probes[i])
            };
            let ghost prev = self.table();
            let ghost name = defs[i as int].name@;
            self.record_module(module);
            proof {
                assert forall|k: int| 0 <= k < i + 1 implies index_of(
                    self.table(),
                    (#[trigger] defs[k]).name@,
                ) is Some by {
                    if k < i && defs[k].name@ != name {
                        assert(index_of(prev, defs[k].name@) is Some);
                    }
                }
                assert forall|k: int|
                    0 <= k < i + 1 && (forall|j: int| k < j < i + 1 ==> defs[j].name@ != defs[k].name@)
                        implies self.table()[index_of(
                    self.table(),
                    (#[trigger] defs[k]).name@,
                ).unwrap()].status == checked_status(dkms_available, probes@[k]) by {
                    if k < i {
                        assert(defs[i as int].name@ != defs[k].name@);
                        assert(index_of(prev, defs[k].name@) is Some);
                    }
                }
                assert forall|m: Seq<char>|
                    (forall|k: int| 0 <= k < i + 1 ==> (#[trigger] defs[k]).name@ != m)
                        implies #[trigger] index_of(self.table(), m) is Some == index_of(start, m)
                        is Some by {
                    assert(defs[i as int].name@ != m);
                    assert(forall|k: int| 0 <= k < i ==> (#[trigger] defs[k]).name@ != m);
                }
            }
            i = i + 1;
        }
        Ok(())
    }

    /// The record for a module from its probe.
    pub fn check_module(&self, module_name: &str, probe: ModuleProbe) -> (r: Result<
        KernelModule,
        String,
    >)
        ensures
            r is Ok,
            r->Ok_0.name@ == module_name@,
            r->Ok_0.description@ == Seq::<char>::empty(),
            r->Ok_0.status == probe_status(probe),
    {
        proof {
            reveal_strlit("");
        }
        let mut module = KernelModule::new(module_name, "");
        module.status = if probe.loaded {
            ModuleStatus::Loaded
        } else if probe.available {
            ModuleStatus::Available
        } else if probe.blacklisted {
            ModuleStatus::Blacklisted
        } else {
            ModuleStatus::NotAvailable
        };
        Ok(module)
    }

    /// The record for a module from a `modprobe --dry-run` probe.
    pub fn check_module_with_modprobe(&self, module_name: &str, probe: ModuleProbe) -> (m:
        KernelModule)
        ensures
            m.name@ == module_name@,
            m.description@ == Seq::<char>::empty(),
            m.status == dry_run_status(probe.dry_run_ok, probe.loaded, probe.available),
    {
        proof {
            reveal_strlit("");
        }
        let mut module = KernelModule::new(module_name, "");
        module.status = if probe.dry_run_ok {
            if probe.loaded {
                ModuleStatus::Loaded
            } else {
                ModuleStatus::Available
            }
        } else if probe.available {
            ModuleStatus::Available
        } else {
            ModuleStatus::NotAvailable
        };
        module
    }


    /// The first step of a module operation on `module_name`.
    pub fn start_task(&self, module_name: &str, task: &ModuleTask) -> (s: ModuleStep)
        ensures
            s@ == start_spec(self.spec_config(), *task),
    {
        if !self.config.enabled {
            return ModuleStep::Done(Ok(false));
        }
        match task {
            ModuleTask::Unload | ModuleTask::Reload => lsmod_step(&self.config, ModuleStage::UnloadCheck),
            ModuleTask::Load | ModuleTask::LoadWithParams(_) => lsmod_step(
                &self.config,
                ModuleStage::CheckLoaded,
            ),
            _ => {
                let args = vec![String::from_str("--version")];
                proof {
                    assert(views(args@) =~= seq!["--version"@]);
                }
                run_step(ModuleStage::DkmsAvailable, &self.config.dkms_command, args)
            },
        }
    }

    /// The next step of a module operation on `module_name`, after the outcome
    /// of the command run at `stage` (`Err` when it could not run).
    pub fn step_task(
        &self,
        module_name: &str,
        task: &ModuleTask,
        stage: ModuleStage,
        outcome: Result<CommandOutput, String>,
    ) -> (s: ModuleStep)
        ensures
            s@ == step_spec(self.spec_config(), module_name@, *task, stage, outcome),
    {
        match stage {
            ModuleStage::CheckLoaded => match self.is_module_loaded(module_name, outcome) {
                Err(e) => ModuleStep::Done(Err(e)),
                Ok(true) => ModuleStep::Done(Ok(true)),
                Ok(false) => {
                    let mut args: Vec<String> = vec![String::from_str(module_name)];
                    proof {
                        assert(views(args@) =~= seq![module_name@]);
                    }
                    match task {
                        ModuleTask::LoadWithParams(params) => {
                            let extra = copy_strings(params);
                            let ghost before = views(args@);
                            let mut i: usize = 0;
                            while i < extra.len()
                                invariant
                                    i <= extra@.len(),
                                    views(args@) == before + views(extra@).subrange(0, i as int),
                                decreases extra@.len() - i,
                            {
                                let ghost prev = args@;
                                args.push(extra[i].clone());
                                assert(views(args@) =~= views(prev).push(extra@[i as int]@));
                                assert(views(extra@).subrange(0, i + 1) =~= views(extra@).subrange(
                                    0,
                                    i as int,
                                ).push(extra@[i as int]@));
                                i = i + 1;
                            }
                            assert(views(extra@).subrange(0, extra@.len() as int) =~= views(extra@));
                        },
                        _ => {
                            assert(task_params(*task) =~= Seq::<Seq<char>>::empty());
                            assert(views(args@) =~= seq![module_name@] + task_params(*task));
                        },
                    }
                    run_step(ModuleStage::Modprobe, &self.config.modprobe_command, args)
                },
            },
            ModuleStage::Modprobe => match outcome {
                Err(e) => {
                    let m = concat_str(&concat_str("Failed to load module ", module_name), ": ");
                    ModuleStep::Done(Err(concat_str(m.as_str(), e.as_str())))
                },
                Ok(out) => {
                    if out.success {
                        lsmod_step(&self.config, ModuleStage::Verify)
                    } else {
                        match task {
                            ModuleTask::LoadWithParams(_) => ModuleStep::Done(Ok(false)),
                            _ => {
                                let args = vec![String::from_str("--version")];
                                proof {
                                    assert(views(args@) =~= seq!["--version"@]);
                                }
                                run_step(ModuleStage::CheckDkms, &self.config.dkms_command, args)
                            },
                        }
                    }
                },
            },
            ModuleStage::Verify => match self.is_module_loaded(module_name, outcome) {
                Ok(b) => ModuleStep::Done(Ok(b)),
                Err(e) => ModuleStep::Done(Err(e)),
            },
            ModuleStage::CheckDkms => match self.is_dkms_available(outcome) {
                Err(e) => ModuleStep::Done(Err(e)),
                Ok(false) => ModuleStep::Done(Ok(false)),
                Ok(true) => {
                    let args = vec![
                        String::from_str("install"),
                        String::from_str("-m"),
                        String::from_str(module_name),
                        String::from_str("-v"),
                        String::from_str("auto"),
                    ];
                    proof {
                        assert(views(args@) =~= seq!["install"@, "-m"@, module_name@, "-v"@, "auto"@]);
                    }
                    run_step(ModuleStage::DkmsInstall, &self.config.dkms_command, args)
                },
            },
            ModuleStage::DkmsInstall => match outcome {
                Ok(out) => {
                    if out.success {
                        lsmod_step(&self.config, ModuleStage::Verify)
                    } else {
                        ModuleStep::Done(Ok(false))
                    }
                },
                Err(_) => ModuleStep::Done(Ok(false)),
            },
            ModuleStage::UnloadCheck => match self.is_module_loaded(module_name, outcome) {
                Err(e) => ModuleStep::Done(Err(e)),
                Ok(false) => self.after_unload(task, true),
                Ok(true) => {
                    let args = vec![String::from_str(module_name)];
                    proof {
                        assert(views(args@) =~= seq![module_name@]);
                    }
                    run_step(ModuleStage::Rmmod, &self.config.rmmod_command, args)
                },
            },
            ModuleStage::Rmmod => match outcome {
                Err(e) => {
                    let m = concat_str(&concat_str("Failed to unload module ", module_name), ": ");
                    ModuleStep::Done(Err(concat_str(m.as_str(), e.as_str())))
                },
                Ok(out) => self.after_unload(task, out.success),
            },
            ModuleStage::DkmsAvailable => match self.is_dkms_available(outcome) {
                Err(e) => ModuleStep::Done(Err(e)),
                Ok(false) => ModuleStep::Done(Err(String::from_str("DKMS not available on this system"))),
                Ok(true) => run_step(
                    ModuleStage::DkmsCommand,
                    &self.config.dkms_command,
                    dkms_args_exec(module_name, task),
                ),
            },
            ModuleStage::DkmsCommand => match outcome {
                Err(e) => {
                    let prefix = match task {
                        ModuleTask::Install(_) => "Failed to install DKMS module: ",
                        ModuleTask::Remove(_) => "Failed to remove DKMS module: ",
                        _ => "Failed to build DKMS module: ",
                    };
                    ModuleStep::Done(Err(concat_str(prefix, e.as_str())))
                },
                Ok(out) => ModuleStep::Done(Ok(out.success)),
            },
        }
    }

    /// Installing the DKMS package of a module from a source directory: the task and its first step.
    pub fn install_dkms_module(&self, source_dir: &str, module_name: &str) -> (r: (ModuleTask, ModuleStep))
        ensures
            r.0 matches ModuleTask::Install(s) && s@ == source_dir@,
            r.1@ == start_spec(self.spec_config(), r.0),
    {
        let task = ModuleTask::Install(String::from_str(source_dir));
        let step = self.start_task(module_name, &task);
        (task, step)
    }

    /// Removing a version of a module's DKMS package: the task and its first step.
    pub fn remove_dkms_module(&self, module_name: &str, version: &str) -> (r: (ModuleTask, ModuleStep))
        ensures
            r.0 matches ModuleTask::Remove(v) && v@ == version@,
            r.1@ == start_spec(self.spec_config(), r.0),
    {
        let task = ModuleTask::Remove(String::from_str(version));
        let step = self.start_task(module_name, &task);
        (task, step)
    }

    /// Building a version of a module's DKMS package: the task and its first step.
    pub fn build_dkms_module(&self, module_name: &str, version: &str) -> (r: (ModuleTask, ModuleStep))
        ensures
            r.0 matches ModuleTask::Build(v) && v@ == version@,
            r.1@ == start_spec(self.spec_config(), r.0),
    {
        let task = ModuleTask::Build(String::from_str(version));
        let step = self.start_task(module_name, &task);
        (task, step)
    }

    fn after_unload(&self, task: &ModuleTask, unloaded: bool) -> (s: ModuleStep)
        ensures
            s@ == after_unload(self.spec_config(), *task, unloaded),
    {
        match task {
            ModuleTask::Reload => lsmod_step(&self.config, ModuleStage::CheckLoaded),
            _ => ModuleStep::Done(Ok(unloaded)),
        }
    }

    /// Reloading a module: its first step.
    pub fn reload_module(&self, module_name: &str) -> (s: ModuleStep)
        ensures
            s@ == start_spec(self.spec_config(), ModuleTask::Reload),
    {
        self.start_task(module_name, &ModuleTask::Reload)
    }

    /// Whether DKMS answered `--version`; a command that could not run is an error.
    pub fn is_dkms_available(&self, version: Result<CommandOutput, String>) -> (r: Result<
        bool,
        String,
    >)
        ensures
            match version {
                Ok(o) => r == Ok::<bool, String>(o.success),
                Err(e) => r is Err && r->Err_0@ == "Failed to check DKMS: "@ + e@,
            },
    {
        match version {
            Ok(o) => Ok(o.success),
            Err(e) => Err(concat_str("Failed to check DKMS: ", e.as_str())),
        }
    }

    /// Whether `lsmod` lists the module; `lsmod` failing counts as not loaded,
    /// and `lsmod` not running at all is an error.
    pub fn is_module_loaded(&self, module_name: &str, lsmod: Result<CommandOutput, String>) -> (r:
        Result<bool, String>)
        ensures
            match lsmod {
                Ok(o) => r == Ok::<bool, String>(o.success && lsmod_lists(o.stdout@, module_name@)),
                Err(e) => r is Err && r->Err_0@ == "Failed to check module "@ + module_name@ + ": "@
                    + e@,
            },
    {
        match lsmod {
            Ok(o) => {
                if !o.success {
                    return Ok(false);
                }
                Ok(lsmod_lists_module(o.stdout.as_str(), module_name))
            },
            Err(e) => {
                let m = concat_str(&concat_str("Failed to check module ", module_name), ": ");
                Err(concat_str(m.as_str(), e.as_str()))
            },
        }
    }

    /// Whether some modprobe configuration blacklists the module: any file of
    /// `/etc/modprobe.d`, or a `blacklist` line in `/etc/modprobe.conf`.
    pub fn is_module_blacklisted(
        &self,
        module_name: &str,
        modprobe_d: &Vec<String>,
        modprobe_conf: Option<&str>,
    ) -> (b: bool)
        ensures
            b == ((exists|i: int|
                0 <= i < modprobe_d@.len() && config_blacklists(
                    (#[trigger] modprobe_d@[i])@,
                    module_name@,
                )) || (modprobe_conf matches Some(c) && contains_text(
                c@,
                "blacklist "@ + module_name@,
            ))),
    {
        let mut i: usize = 0;
        while i < modprobe_d.len()
            invariant
                i <= modprobe_d@.len(),
                forall|j: int|
                    0 <= j < i ==> !config_blacklists((#[trigger] modprobe_d@[j])@, module_name@),
            decreases modprobe_d@.len() - i,
        {
            if blacklists_module(modprobe_d[i].as_str(), module_name) {
                return true;
            }
            i = i + 1;
        }
        match modprobe_conf {
            Some(c) => {
                let needle = concat_str("blacklist ", module_name);
                contains_exec(chars_of(c).as_slice(), chars_of(needle.as_str()).as_slice())
            },
            None => false,
        }
    }

    /// The record of a module, if it was checked.
    pub fn get_module_info(&self, module_name: &str) -> (r: Result<Option<KernelModule>, String>)
        requires
            self.wf(),
        ensures
            r is Ok,
            match index_of(self.table(), module_name@) {
                Some(i) => r->Ok_0 is Some && same_module(r->Ok_0->Some_0, self.table()[i]),
                None => r->Ok_0 is None,
            },
    {
        let mut i: usize = 0;
        while i < self.modules.len()
            invariant
                i <= self.modules@.len(),
                names_unique(self.modules@),
                forall|j: int| 0 <= j < i ==> self.modules@[j].name@ != module_name@,
            decreases self.modules@.len() - i,
        {
            if crate::parser::same_text(self.modules[i].name.as_str(), module_name) {
                assert(index_of(self.modules@, module_name@) == Some(i as int));
                return Ok(Some(self.modules[i].duplicate()));
            }
            i = i + 1;
        }
        Ok(None)
    }

    /// All checked modules with their status.
    pub fn list_modules(&self) -> (r: Vec<KernelModule>)
        ensures
            r@.len() == self.table().len(),
            forall|i: int| 0 <= i < r@.len() ==> same_module(#[trigger] r@[i], self.table()[i]),
    {
        let mut r: Vec<KernelModule> = Vec::new();
        let mut i: usize = 0;
        while i < self.modules.len()
            invariant
                i <= self.modules@.len(),
                r@.len() == i,
                forall|j: int| 0 <= j < i ==> same_module(#[trigger] r@[j], self.modules@[j]),
            decreases self.modules@.len() - i,
        {
            r.push(self.modules[i].duplicate());
            i = i + 1;
        }
        r
    }

    /// The names of the configured modules that are required, in order.
    pub fn required_modules(&self) -> (r: Vec<String>)
        ensures
            views(r@) == required_names(self.spec_config().modules@),
    {
        let mut r: Vec<String> = Vec::new();
        let mut i: usize = 0;
        while i < self.config.modules.len()
            invariant
                i <= self.config.modules@.len(),
                views(r@) == required_names(self.config.modules@.subrange(0, i as int)),
            decreases self.config.modules@.len() - i,
        {
            assert(self.config.modules@.subrange(0, i + 1).drop_last() == self.config.modules@.subrange(
                0,
                i as int,
            ));
            if self.config.modules[i].required {
                let ghost before = r@;
                r.push(self.config.modules[i].name.clone());
                assert(views(r@) =~= views(before).push(self.config.modules@[i as int].name@));
            }
            i = i + 1;
        }
        assert(self.config.modules@.subrange(0, self.config.modules@.len() as int)
            == self.config.modules@);
        r
    }

    /// The next step of loading the required modules in turn, given the
    /// outcomes of the loads so far (`Ok(loaded)`, or why the load could not
    /// run): the first load that could not run ends it with its error; else the
    /// next required module is loaded (optional ones never are); else the
    /// result is `Ok` with no names, or an error naming the modules that did
    /// not load.
    pub fn ensure_required_modules(&self, loads: &Vec<Result<bool, String>>) -> (s: LoadStep)
        requires
            loads@.len() <= required_names(self.spec_config().modules@).len(),
        ensures
            load_step_is(
                s,
                required_names(self.spec_config().modules@),
                loads@,
                "Failed to load required modules: "@,
            ),
    {
        let names = self.required_modules();
        load_step(&names, loads, "Failed to load required modules: ")
    }

    /// DKMS status for all modules.
    pub fn get_status(&self, dkms_available: bool) -> (s: DkmsStatus)
        ensures
            s.enabled == self.spec_config().enabled,
            s.dkms_available == dkms_available,
            s.total_modules == self.table().len(),
            s.loaded_modules == status_counts(self.table()).0,
            s.available_modules == status_counts(self.table()).1,
            s.failed_modules == status_counts(self.table()).2,
    {
        let mut loaded: usize = 0;
        let mut available: usize = 0;
        let mut failed: usize = 0;
        let mut i: usize = 0;
        while i < self.modules.len()
            invariant
                i <= self.modules@.len(),
                (loaded as nat, available as nat, failed as nat) == status_counts(
                    self.modules@.subrange(0, i as int),
                ),
                loaded <= i,
                available <= i,
                failed <= i,
            decreases self.modules@.len() - i,
        {
            assert(self.modules@.subrange(0, i + 1).drop_last() == self.modules@.subrange(
                0,
                i as int,
            ));
            if self.modules[i].is_loaded() {
                loaded = loaded + 1;
            }
            if self.modules[i].is_available() {
                available = available + 1;
            }
            if self.modules[i].status == ModuleStatus::Failed {
                failed = failed + 1;
            }
            i = i + 1;
        }
        assert(self.modules@.subrange(0, self.modules@.len() as int) == self.modules@);
        DkmsStatus {
            enabled: self.config.enabled,
            dkms_available,
            total_modules: self.modules.len(),
            loaded_modules: loaded,
            available_modules: available,
            failed_modules: failed,
        }
    }
}


/// A command to run: a program and its arguments.
#[derive(Debug, Clone)]
pub struct CommandLine {
    pub program: String,
    pub args: Vec<String>,
}

/// Where a module operation stands while it waits for a command's outcome.
#[derive(Debug, Clone, Copy, PartialEq, Eq, Structural)]
pub enum ModuleStage {
    /// `lsmod` runs to see whether the module is already loaded.
    CheckLoaded,
    /// `modprobe` runs to load the module.
    Modprobe,
    /// `lsmod` runs to see whether loading took.
    Verify,
    /// `dkms --version` runs to see whether DKMS can build the module.
    CheckDkms,
    /// `dkms install` runs to build and install the module.
    DkmsInstall,
    /// `lsmod` runs to see whether the module is loaded before unloading it.
    UnloadCheck,
    /// `rmmod` runs to unload the module.
    Rmmod,
    /// `dkms --version` runs before a DKMS package operation, which needs DKMS.
    DkmsAvailable,
    /// `dkms install`, `remove` or `build` runs.
    DkmsCommand,
}

/// A module operation.
#[derive(Debug, Clone)]
pub enum ModuleTask {
    /// Load the module (`load_module`).
    Load,
    /// Load the module with `modprobe` parameters (`load_module_with_params`).
    LoadWithParams(Vec<String>),
    /// Unload the module (`unload_module`).
    Unload,
    /// Unload, then load the module (`reload_module`).
    Reload,
    /// Install the DKMS package from a source directory (`install_dkms_module`).
    Install(String),
    /// Remove a version of the DKMS package (`remove_dkms_module`).
    Remove(String),
    /// Build a version of the DKMS package (`build_dkms_module`).
    Build(String),
}

/// The next step of a module operation: run a command and come back with its
/// outcome at the given stage, or the operation's result.
#[derive(Debug)]
pub enum ModuleStep {
    Run { stage: ModuleStage, command: CommandLine },
    Done(Result<bool, String>),
}

/// What a step says: the stage and command to run, or the result (its error as text).
pub enum StepView {
    Run { stage: ModuleStage, program: Seq<char>, args: Seq<Seq<char>> },
    Done(Result<bool, Seq<char>>),
}

impl View for ModuleStep {
    type V = StepView;

    open spec fn view(&self) -> StepView {
        match self {
            ModuleStep::Run { stage, command } => StepView::Run {
                stage: *stage,
                program: command.program@,
                args: views(command.args@),
            },
            ModuleStep::Done(r) => StepView::Done(
                match r {
                    Ok(b) => Ok(*b),
                    Err(e) => Err(e@),
                },
            ),
        }
    }
}

/// The parameters a task hands to `modprobe` after the module name.
pub open spec fn task_params(task: ModuleTask) -> Seq<Seq<char>> {
    match task {
        ModuleTask::LoadWithParams(p) => views(p@),
        _ => Seq::empty(),
    }
}

/// What `lsmod` says of the module, as `is_module_loaded` reads it.
pub open spec fn loaded_outcome(name: Seq<char>, o: Result<CommandOutput, String>) -> Result<
    bool,
    Seq<char>,
> {
    match o {
        Ok(out) => Ok(out.success && lsmod_lists(out.stdout@, name)),
        Err(e) => Err("Failed to check module "@ + name + ": "@ + e@),
    }
}

/// What `dkms --version` says, as `is_dkms_available` reads it.
pub open spec fn dkms_outcome(o: Result<CommandOutput, String>) -> Result<bool, Seq<char>> {
    match o {
        Ok(out) => Ok(out.success),
        Err(e) => Err("Failed to check DKMS: "@ + e@),
    }
}

/// Running `lsmod` at a stage.
pub open spec fn lsmod_run(c: DkmsConfig, stage: ModuleStage) -> StepView {
    StepView::Run { stage, program: c.lsmod_command@, args: Seq::empty() }
}

/// The first step of a task: nothing to do when the manager is disabled,
/// otherwise `lsmod`.
pub open spec fn start_spec(c: DkmsConfig, task: ModuleTask) -> StepView {
    if !c.enabled {
        StepView::Done(Ok(false))
    } else {
        match task {
            ModuleTask::Unload | ModuleTask::Reload => lsmod_run(c, ModuleStage::UnloadCheck),
            ModuleTask::Load | ModuleTask::LoadWithParams(_) => lsmod_run(c, ModuleStage::CheckLoaded),
            _ => StepView::Run {
                stage: ModuleStage::DkmsAvailable,
                program: c.dkms_command@,
                args: seq!["--version"@],
            },
        }
    }
}

/// The `dkms` arguments of a package operation.
pub open spec fn dkms_args(name: Seq<char>, task: ModuleTask) -> Seq<Seq<char>> {
    match task {
        ModuleTask::Install(source) => seq!["install"@, "-m"@, name, "-v"@, "1.0"@, "-s"@, source@],
        ModuleTask::Remove(version) => seq!["remove"@, "-m"@, name, "-v"@, version@, "--all"@],
        ModuleTask::Build(version) => seq!["build"@, "-m"@, name, "-v"@, version@],
        _ => Seq::empty(),
    }
}

/// The error prefix of a package operation whose `dkms` could not run.
pub open spec fn dkms_failure(task: ModuleTask) -> Seq<char> {
    match task {
        ModuleTask::Install(_) => "Failed to install DKMS module: "@,
        ModuleTask::Remove(_) => "Failed to remove DKMS module: "@,
        _ => "Failed to build DKMS module: "@,
    }
}

/// After unloading: a reload goes on to load the module, otherwise the result.
pub open spec fn after_unload(c: DkmsConfig, task: ModuleTask, unloaded: bool) -> StepView {
    match task {
        ModuleTask::Reload => lsmod_run(c, ModuleStage::CheckLoaded),
        _ => StepView::Done(Ok(unloaded)),
    }
}

/// The step after a command's outcome at a stage.
pub open spec fn step_spec(
    c: DkmsConfig,
    name: Seq<char>,
    task: ModuleTask,
    stage: ModuleStage,
    outcome: Result<CommandOutput, String>,
) -> StepView {
    match stage {
        ModuleStage::CheckLoaded => match loaded_outcome(name, outcome) {
            Err(e) => StepView::Done(Err(e)),
            Ok(true) => StepView::Done(Ok(true)),
            Ok(false) => StepView::Run {
                stage: ModuleStage::Modprobe,
                program: c.modprobe_command@,
                args: seq![name] + task_params(task),
            },
        },
        ModuleStage::Modprobe => match outcome {
            Err(e) => StepView::Done(Err("Failed to load module "@ + name + ": "@ + e@)),
            Ok(out) => if out.success {
                lsmod_run(c, ModuleStage::Verify)
            } else if task is LoadWithParams {
                StepView::Done(Ok(false))
            } else {
                StepView::Run {
                    stage: ModuleStage::CheckDkms,
                    program: c.dkms_command@,
                    args: seq!["--version"@],
                }
            },
        },
        ModuleStage::Verify => StepView::Done(loaded_outcome(name, outcome)),
        ModuleStage::CheckDkms => match dkms_outcome(outcome) {
            Err(e) => StepView::Done(Err(e)),
            Ok(false) => StepView::Done(Ok(false)),
            Ok(true) => StepView::Run {
                stage: ModuleStage::DkmsInstall,
                program: c.dkms_command@,
                args: seq!["install"@, "-m"@, name, "-v"@, "auto"@],
            },
        },
        ModuleStage::DkmsInstall => match outcome {
            Ok(out) => if out.success {
                lsmod_run(c, ModuleStage::Verify)
            } else {
                StepView::Done(Ok(false))
            },
            Err(_) => StepView::Done(Ok(false)),
        },
        ModuleStage::UnloadCheck => match loaded_outcome(name, outcome) {
            Err(e) => StepView::Done(Err(e)),
            Ok(false) => after_unload(c, task, true),
            Ok(true) => StepView::Run {
                stage: ModuleStage::Rmmod,
                program: c.rmmod_command@,
                args: seq![name],
            },
        },
        ModuleStage::Rmmod => match outcome {
            Err(e) => StepView::Done(Err("Failed to unload module "@ + name + ": "@ + e@)),
            Ok(out) => after_unload(c, task, out.success),
        },
        ModuleStage::DkmsAvailable => match dkms_outcome(outcome) {
            Err(e) => StepView::Done(Err(e)),
            Ok(false) => StepView::Done(Err("DKMS not available on this system"@)),
            Ok(true) => StepView::Run {
                stage: ModuleStage::DkmsCommand,
                program: c.dkms_command@,
                args: dkms_args(name, task),
            },
        },
        ModuleStage::DkmsCommand => match outcome {
            Err(e) => StepView::Done(Err(dkms_failure(task) + e@)),
            Ok(out) => StepView::Done(Ok(out.success)),
        },
    }
}


/// How many commands a module operation can still run from a stage, at most.
pub open spec fn stage_rank(stage: ModuleStage) -> nat {
    match stage {
        ModuleStage::Verify => 0,
        ModuleStage::DkmsInstall => 1,
        ModuleStage::CheckDkms => 2,
        ModuleStage::Modprobe => 3,
        ModuleStage::CheckLoaded => 4,
        ModuleStage::Rmmod => 5,
        ModuleStage::UnloadCheck => 6,
        ModuleStage::DkmsAvailable => 1,
        ModuleStage::DkmsCommand => 0,
    }
}

/// Every module operation ends: each command it runs leads to a stage of
/// lower rank, so an operation runs at most seven commands.
pub proof fn law_module_steps_terminate(
    c: DkmsConfig,
    name: Seq<char>,
    task: ModuleTask,
    stage: ModuleStage,
    outcome: Result<CommandOutput, String>,
)
    ensures
        step_spec(c, name, task, stage, outcome) matches StepView::Run { stage: next, .. } ==> stage_rank(
            next,
        ) < stage_rank(stage),
        start_spec(c, task) matches StepView::Run { stage: first, .. } ==> stage_rank(first) <= 6,
{
}

/// A disabled manager runs no command and reports that nothing was done.
pub proof fn law_disabled_manager_runs_nothing(c: DkmsConfig, task: ModuleTask)
    requires
        !c.enabled,
    ensures
        start_spec(c, task) == StepView::Done(Ok::<bool, Seq<char>>(false)),
{
}

/// The `dkms` arguments of a package operation.
fn dkms_args_exec(name: &str, task: &ModuleTask) -> (r: Vec<String>)
    ensures
        views(r@) == dkms_args(name@, *task),
{
    match task {
        ModuleTask::Install(source) => {
            let r = vec![
                String::from_str("install"),
                String::from_str("-m"),
                String::from_str(name),
                String::from_str("-v"),
                String::from_str("1.0"),
                String::from_str("-s"),
                source.clone(),
            ];
            assert(views(r@) =~= dkms_args(name@, *task));
            r
        },
        ModuleTask::Remove(version) => {
            let r = vec![
                String::from_str("remove"),
                String::from_str("-m"),
                String::from_str(name),
                String::from_str("-v"),
                version.clone(),
                String::from_str("--all"),
            ];
            assert(views(r@) =~= dkms_args(name@, *task));
            r
        },
        ModuleTask::Build(version) => {
            let r = vec![
                String::from_str("build"),
                String::from_str("-m"),
                String::from_str(name),
                String::from_str("-v"),
                version.clone(),
            ];
            assert(views(r@) =~= dkms_args(name@, *task));
            r
        },
        _ => {
            let r: Vec<String> = Vec::new();
            assert(views(r@) =~= dkms_args(name@, *task));
            r
        },
    }
}

/// A step that runs `lsmod` at a stage.
fn lsmod_step(c: &DkmsConfig, stage: ModuleStage) -> (s: ModuleStep)
    ensures
        s@ == lsmod_run(*c, stage),
{
    let args: Vec<String> = Vec::new();
    assert(views(args@) =~= Seq::<Seq<char>>::empty());
    run_step(stage, &c.lsmod_command, args)
}

/// A step that runs a program with the given arguments.
fn run_step(stage: ModuleStage, program: &String, args: Vec<String>) -> (s: ModuleStep)
    ensures
        s@ == (StepView::Run { stage, program: program@, args: views(args@) }),
{
    ModuleStep::Run { stage, command: CommandLine { program: program.clone(), args } }
}

/// The names of the required definitions, in order.
pub open spec fn required_names(defs: Seq<ModuleDefinition>) -> Seq<Seq<char>>
    decreases defs.len(),
{
    if defs.len() == 0 {
        seq![]
    } else if defs.last().required {
        required_names(defs.drop_last()).push(defs.last().name@)
    } else {
        required_names(defs.drop_last())
    }
}

/// The names whose load did not succeed, in order.
pub open spec fn failures(names: Seq<Seq<char>>, loaded: Seq<bool>) -> Seq<Seq<char>>
    decreases names.len(),
{
    if names.len() == 0 || loaded.len() == 0 {
        seq![]
    } else if loaded.last() {
        failures(names.drop_last(), loaded.drop_last())
    } else {
        failures(names.drop_last(), loaded.drop_last()).push(names.last())
    }
}

/// The `{:?}` text of a list of strings.
pub uninterp spec fn debug_list_text(items: Seq<Seq<char>>) -> Seq<char>;

/// `format!("{:?}", items)` for a list of strings: `["a", "b"]` with Rust's
/// string escaping. The result is named, not spelled out.
#[verifier::external_body]
fn debug_list(items: &Vec<String>) -> (r: String)
    ensures
        r@ == debug_list_text(views(items@)),
{
    format!("{:?}", items)
}

/// `Ok` with no names when every load succeeded, otherwise an error naming the failures.
fn summarize_failures(names: &Vec<String>, loaded: &Vec<bool>, prefix: &str) -> (r: Result<
    Vec<String>,
    String,
>)
    requires
        loaded@.len() == names@.len(),
    ensures
        match r {
            Ok(v) => v@.len() == 0 && failures(views(names@), loaded@).len() == 0,
            Err(e) => failures(views(names@), loaded@).len() > 0 && e@ == prefix@ + debug_list_text(
                failures(views(names@), loaded@),
            ),
        },
{
    let mut failed: Vec<String> = Vec::new();
    let mut i: usize = 0;
    while i < names.len()
        invariant
            i <= names@.len(),
            loaded@.len() == names@.len(),
            views(failed@) == failures(views(names@.subrange(0, i as int)), loaded@.subrange(
                0,
                i as int,
            )),
        decreases names@.len() - i,
    {
        assert(views(names@.subrange(0, i + 1)).drop_last() =~= views(names@.subrange(0, i as int)));
        assert(loaded@.subrange(0, i + 1).drop_last() =~= loaded@.subrange(0, i as int));
        if !loaded[i] {
            let ghost before = failed@;
            failed.push(names[i].clone());
            assert(views(failed@) =~= views(before).push(names@[i as int]@));
        }
        i = i + 1;
    }
    assert(names@.subrange(0, names@.len() as int) == names@);
    assert(loaded@.subrange(0, loaded@.len() as int) == loaded@);
    if failed.len() == 0 {
        Ok(failed)
    } else {
        Err(concat_str(prefix, debug_list(&failed).as_str()))
    }
}

/// What to do next while loading a list of modules in turn.
#[derive(Debug)]
pub enum LoadStep {
    /// Load this module, then ask again with its outcome added.
    Load(String),
    /// Loading is over, with this result.
    Done(Result<Vec<String>, String>),
}

/// The message of a load that failed to run.
pub open spec fn load_error(r: Result<bool, String>) -> Seq<char> {
    match r {
        Err(m) => m@,
        Ok(_) => seq![],
    }
}

/// Whether each load loaded its module.
pub open spec fn load_flags(loads: Seq<Result<bool, String>>) -> Seq<bool> {
    loads.map_values(|r: Result<bool, String>| r == Ok::<bool, String>(true))
}

/// Load `i` is the first that failed to run.
pub open spec fn is_first_load_error(loads: Seq<Result<bool, String>>, i: int) -> bool {
    &&& 0 <= i < loads.len()
    &&& loads[i] is Err
    &&& forall|j: int| 0 <= j < i ==> loads[j] is Ok
}

/// The result once every module was loaded: `Ok` with no names when each one
/// loaded, otherwise an error naming those that did not.
pub open spec fn load_summary(
    r: Result<Vec<String>, String>,
    names: Seq<Seq<char>>,
    loaded: Seq<bool>,
    prefix: Seq<char>,
) -> bool {
    match r {
        Ok(v) => v@.len() == 0 && failures(names, loaded).len() == 0,
        Err(e) => failures(names, loaded).len() > 0 && e@ == prefix + debug_list_text(
            failures(names, loaded),
        ),
    }
}

/// The next step of loading `names` in turn, given the outcomes of the loads
/// so far, in order: the first load that failed to run ends it with that
/// error; else the next name is loaded; else the failures are summarized.
pub open spec fn load_step_is(
    s: LoadStep,
    names: Seq<Seq<char>>,
    loads: Seq<Result<bool, String>>,
    prefix: Seq<char>,
) -> bool {
    if exists|i: int| 0 <= i < loads.len() && #[trigger] loads[i] is Err {
        &&& s is Done
        &&& s->Done_0 is Err
        &&& exists|i: int| #[trigger]
            is_first_load_error(loads, i) && s->Done_0->Err_0@ == load_error(loads[i])
    } else if loads.len() < names.len() {
        s is Load && s->Load_0@ == names[loads.len() as int]
    } else {
        s is Done && load_summary(s->Done_0, names, load_flags(loads), prefix)
    }
}

/// The next step of loading `names` in turn, given the outcomes so far.
fn load_step(names: &Vec<String>, loads: &Vec<Result<bool, String>>, prefix: &str) -> (s: LoadStep)
    requires
        loads@.len() <= names@.len(),
    ensures
        load_step_is(s, views(names@), loads@, prefix@),
{
    let mut i: usize = 0;
    while i < loads.len()
        invariant
            i <= loads@.len(),
            forall|j: int| 0 <= j < i ==> loads@[j] is Ok,
        decreases loads@.len() - i,
    {
        match &loads[i] {
            Err(e) => {
                assert(is_first_load_error(loads@, i as int));
                assert(loads@[i as int] is Err);
                return LoadStep::Done(Err(e.clone()));
            },
            Ok(_) => {},
        }
        i = i + 1;
    }
    assert(!exists|i: int| 0 <= i < loads@.len() && #[trigger] loads@[i] is Err);
    if loads.len() < names.len() {
        return LoadStep::Load(names[loads.len()].clone());
    }
    let mut loaded: Vec<bool> = Vec::new();
    let mut k: usize = 0;
    while k < loads.len()
        invariant
            k <= loads@.len(),
            loaded@ == load_flags(loads@).subrange(0, k as int),
        decreases loads@.len() - k,
    {
        let flag = match &loads[k] {
            Ok(b) => *b,
            Err(_) => false,
        };
        loaded.push(flag);
        assert(loaded@ =~= load_flags(loads@).subrange(0, k + 1));
        k = k + 1;
    }
    assert(loaded@ =~= load_flags(loads@));
    LoadStep::Done(summarize_failures(names, &loaded, prefix))
}

/// XDP-specific DKMS manager.
pub struct XdpDkmsManager {
    dkms: DkmsManager,
    xdp_modules: Vec<String>,
}

impl XdpDkmsManager {
    /// The XDP-related modules: `xdp_diag`, `xdp_socket`, `bpf`.
    pub closed spec fn modules(&self) -> Seq<Seq<char>> {
        views(self.xdp_modules@)
    }

    pub closed spec fn manager(&self) -> &DkmsManager {
        &self.dkms
    }

    pub fn new(dkms: DkmsManager) -> (m: Self)
        ensures
            m.modules() == seq!["xdp_diag"@, "xdp_socket"@, "bpf"@],
            *m.manager() == dkms,
    {
        let m = XdpDkmsManager {
            dkms,
            xdp_modules: vec![
                String::from_str("xdp_diag"),
                String::from_str("xdp_socket"),
                String::from_str("bpf"),
            ],
        };
        assert(views(m.xdp_modules@) =~= seq!["xdp_diag"@, "xdp_socket"@, "bpf"@]);
        m
    }

    /// The XDP-related module names, in order.
    pub fn xdp_modules(&self) -> (r: &Vec<String>)
        ensures
            views(r@) == self.modules(),
    {
        &self.xdp_modules
    }

    /// The underlying manager.
    pub fn dkms(&self) -> (r: &DkmsManager)
        ensures
            *r == *self.manager(),
    {
        &self.dkms
    }

    /// Loading the XDP module with `modprobe` parameters: its first step.
    pub fn load_xdp_with_params(&self, params: &Vec<String>) -> (r: (ModuleTask, ModuleStep))
        ensures
            r.0 matches ModuleTask::LoadWithParams(p) && views(p@) == views(params@),
            r.1@ == start_spec(self.manager().spec_config(), r.0),
    {
        let task = ModuleTask::LoadWithParams(copy_strings(params));
        let step = self.dkms.start_task("xdp", &task);
        (task, step)
    }

    /// The next step of loading the XDP modules in turn, given the outcomes of
    /// the loads so far: the first load that could not run ends it with its
    /// error; else the next module is loaded; else the failures are summarized.
    pub fn ensure_xdp_modules(&self, loads: &Vec<Result<bool, String>>) -> (s: LoadStep)
        requires
            loads@.len() <= self.modules().len(),
        ensures
            load_step_is(s, self.modules(), loads@, "Failed to load XDP modules: "@),
    {
        load_step(&self.xdp_modules, loads, "Failed to load XDP modules: ")
    }

    /// XDP is ready when every XDP module is loaded: `loaded[i]` tells whether
    /// `lsmod` lists the `i`-th.
    pub fn is_xdp_ready(&self, loaded: &Vec<bool>) -> (r: Result<bool, String>)
        requires
            loaded@.len() == self.modules().len(),
        ensures
            r == Ok::<bool, String>(forall|i: int| 0 <= i < loaded@.len() ==> loaded@[i]),
    {
        let mut i: usize = 0;
        while i < loaded.len()
            invariant
                i <= loaded@.len(),
                forall|j: int| 0 <= j < i ==> loaded@[j],
            decreases loaded@.len() - i,
        {
            if !loaded[i] {
                return Ok(false);
            }
            i = i + 1;
        }
        Ok(true)
    }
}

/// zRAM-specific DKMS manager.
pub struct ZramDkmsManager {
    dkms: DkmsManager,
}

impl ZramDkmsManager {
    pub closed spec fn manager(&self) -> &DkmsManager {
        &self.dkms
    }

    pub fn new(dkms: DkmsManager) -> (m: Self)
        ensures
            *m.manager() == dkms,
    {
        ZramDkmsManager { dkms }
    }

    /// The underlying manager.
    pub fn dkms(&self) -> (r: &DkmsManager)
        ensures
            *r == *self.manager(),
    {
        &self.dkms
    }

    /// Loading the zRAM module: its first step.
    pub fn ensure_zram(&self) -> (s: ModuleStep)
        ensures
            s@ == start_spec(self.manager().spec_config(), ModuleTask::Load),
    {
        self.dkms.start_task("zram", &ModuleTask::Load)
    }

    /// Loading the zRAM module with `num_devices` devices: the task and its first step.
    pub fn load_zram_with_params(&self, num_devices: u32) -> (r: (ModuleTask, ModuleStep))
        ensures
            r.0 matches ModuleTask::LoadWithParams(p) && views(p@) == seq![
                "num_devices="@ + crate::text::decimal(num_devices as nat),
            ],
            r.1@ == start_spec(self.manager().spec_config(), r.0),
    {
        let params = vec![ZramDkmsManager::zram_params(num_devices)];
        let ghost pv = views(params@);
        assert(pv =~= seq!["num_devices="@ + crate::text::decimal(num_devices as nat)]);
        let task = ModuleTask::LoadWithParams(params);
        let step = self.dkms.start_task("zram", &task);
        (task, step)
    }

    /// The modprobe parameter that asks for `num_devices` zRAM devices.
    pub fn zram_params(num_devices: u32) -> (r: String)
        ensures
            r@ == "num_devices="@ + crate::text::decimal(num_devices as nat),
    {
        concat_str("num_devices=", crate::text::decimal_string(num_devices as u64).as_str())
    }
}

/// `str::to_uppercase` of a text: its Unicode upper case. The mapping is
/// named, not spelled out.
pub uninterp spec fn unicode_upper(s: Seq<char>) -> Seq<char>;

/// `str::to_uppercase`: the Unicode upper case of a text.
#[verifier::external_body]
fn to_uppercase(s: &str) -> (r: String)
    ensures
        r@ == unicode_upper(s@),
{
    s.to_uppercase()
}

/// A kernel configuration builds a module in (`CONFIG_<NAME>=y`) or as a
/// module (`CONFIG_<NAME>=m`), the name in upper case.
pub open spec fn config_enables(config: Seq<char>, module_name: Seq<char>) -> bool {
    crate::text::contains_text(config, "CONFIG_"@ + unicode_upper(module_name) + "=y"@)
        || crate::text::contains_text(config, "CONFIG_"@ + unicode_upper(module_name) + "=m"@)
}

/// Whether a kernel configuration (the text of `/boot/config-<release>`)
/// enables a module, built in or as a module.
pub fn kernel_config_has_module(config: &str, module_name: &str) -> (b: bool)
    ensures
        b == config_enables(config@, module_name@),
{
    let upper = to_uppercase(module_name);
    let stem = concat_str("CONFIG_", upper.as_str());
    let built_in = concat_str(stem.as_str(), "=y");
    let loadable = concat_str(stem.as_str(), "=m");
    let hay = chars_of(config);
    crate::text::contains_exec(hay.as_slice(), chars_of(built_in.as_str()).as_slice())
        || crate::text::contains_exec(hay.as_slice(), chars_of(loadable.as_str()).as_slice())
}

/// The kernel configuration file of a release (what `uname -r` printed).
pub fn kernel_config_path(release: &str) -> (p: String)
    ensures
        p@ == "/boot/config-"@ + crate::text::trim(release@),
{
    let r = crate::text::trim_str(release);
    concat_str("/boot/config-", r.as_str())
}

} // verus!
