use ccze_rs::dkms::{
    CommandOutput, DkmsConfig, DkmsManager, ModuleStage, ModuleStep, ModuleTask, XdpDkmsManager,
    ZramDkmsManager,
};
use ccze_rs::lsm::{CapabilityManager, LkmManager, LkmStage, LkmStep, LsmConfig, LsmManager};

fn out(success: bool, stdout: &str) -> Result<CommandOutput, String> {
    Ok(CommandOutput { success, stdout: stdout.to_string() })
}

fn command(step: &ModuleStep) -> (ModuleStage, String, Vec<String>) {
    match step {
        ModuleStep::Run { stage, command } => (*stage, command.program.clone(), command.args.clone()),
        ModuleStep::Done(r) => panic!("finished early: {:?}", r),
    }
}

#[test]
fn loading_tries_modprobe_then_dkms() {
    let manager = DkmsManager::new(DkmsConfig::default());
    let task = ModuleTask::Load;
    let step = manager.start_task("zram", &task);
    let (stage, program, args) = command(&step);
    assert_eq!((stage, program.as_str(), args.len()), (ModuleStage::CheckLoaded, "lsmod", 0));
    let step = manager.step_task("zram", &task, stage, out(true, "Module\nloop 1 0\n"));
    let (stage, program, args) = command(&step);
    assert_eq!((stage, program.as_str()), (ModuleStage::Modprobe, "modprobe"));
    assert_eq!(args, vec!["zram".to_string()]);
    let step = manager.step_task("zram", &task, stage, out(false, ""));
    let (stage, program, args) = command(&step);
    assert_eq!((stage, program.as_str()), (ModuleStage::CheckDkms, "dkms"));
    assert_eq!(args, vec!["--version".to_string()]);
    let step = manager.step_task("zram", &task, stage, out(true, ""));
    let (stage, _, args) = command(&step);
    assert_eq!(stage, ModuleStage::DkmsInstall);
    assert_eq!(args.join(" "), "install -m zram -v auto");
    let step = manager.step_task("zram", &task, stage, out(true, ""));
    let (stage, _, _) = command(&step);
    assert_eq!(stage, ModuleStage::Verify);
    match manager.step_task("zram", &task, stage, out(true, "Module\nzram 1 0\n")) {
        ModuleStep::Done(r) => assert_eq!(r, Ok(true)),
        _ => panic!("expected a result"),
    }
}

#[test]
fn loaded_modules_and_failures_finish_early() {
    let manager = DkmsManager::new(DkmsConfig::default());
    match manager.step_task("zram", &ModuleTask::Load, ModuleStage::CheckLoaded, out(true, "h\nzram 1 0\n")) {
        ModuleStep::Done(r) => assert_eq!(r, Ok(true)),
        _ => panic!(),
    }
    match manager.step_task("zram", &ModuleTask::Load, ModuleStage::Modprobe, Err("denied".to_string())) {
        ModuleStep::Done(r) => assert_eq!(r, Err("Failed to load module zram: denied".to_string())),
        _ => panic!(),
    }
    match manager.step_task("zram", &ModuleTask::Load, ModuleStage::CheckDkms, out(false, "")) {
        ModuleStep::Done(r) => assert_eq!(r, Ok(false)),
        _ => panic!(),
    }
    let params = ModuleTask::LoadWithParams(vec!["a=1".to_string()]);
    let (_, _, args) = command(&manager.step_task("zram", &params, ModuleStage::CheckLoaded, out(true, "h\n")));
    assert_eq!(args, vec!["zram".to_string(), "a=1".to_string()]);
    match manager.step_task("zram", &params, ModuleStage::Modprobe, out(false, "")) {
        ModuleStep::Done(r) => assert_eq!(r, Ok(false)),
        _ => panic!(),
    }
    let mut config = DkmsConfig::default();
    config.enabled = false;
    match DkmsManager::new(config).start_task("zram", &ModuleTask::Load) {
        ModuleStep::Done(r) => assert_eq!(r, Ok(false)),
        _ => panic!(),
    }
}

#[test]
fn reloading_unloads_then_loads() {
    let manager = DkmsManager::new(DkmsConfig::default());
    let step = manager.reload_module("zram");
    let (stage, _, _) = command(&step);
    assert_eq!(stage, ModuleStage::UnloadCheck);
    let (stage, program, args) = command(&manager.step_task("zram", &ModuleTask::Reload, stage, out(true, "h\nzram 1 0\n")));
    assert_eq!((stage, program.as_str()), (ModuleStage::Rmmod, "rmmod"));
    assert_eq!(args, vec!["zram".to_string()]);
    let (stage, _, _) = command(&manager.step_task("zram", &ModuleTask::Reload, stage, out(true, "")));
    assert_eq!(stage, ModuleStage::CheckLoaded);
    match manager.step_task("zram", &ModuleTask::Unload, ModuleStage::Rmmod, out(false, "")) {
        ModuleStep::Done(r) => assert_eq!(r, Ok(false)),
        _ => panic!(),
    }
    match manager.step_task("zram", &ModuleTask::Unload, ModuleStage::UnloadCheck, out(true, "h\n")) {
        ModuleStep::Done(r) => assert_eq!(r, Ok(true)),
        _ => panic!(),
    }
}

#[test]
fn dkms_package_operations_need_dkms() {
    let manager = DkmsManager::new(DkmsConfig::default());
    let (task, step) = manager.build_dkms_module("ccze", "2.0");
    let (stage, _, args) = command(&step);
    assert_eq!(stage, ModuleStage::DkmsAvailable);
    assert_eq!(args, vec!["--version".to_string()]);
    match manager.step_task("ccze", &task, stage, out(false, "")) {
        ModuleStep::Done(r) => assert_eq!(r, Err("DKMS not available on this system".to_string())),
        _ => panic!(),
    }
    let (_, _, args) = command(&manager.step_task("ccze", &task, stage, out(true, "")));
    assert_eq!(args.join(" "), "build -m ccze -v 2.0");
    let (task, _) = manager.install_dkms_module("/src/ccze", "ccze");
    let (_, _, args) = command(&manager.step_task("ccze", &task, ModuleStage::DkmsAvailable, out(true, "")));
    assert_eq!(args.join(" "), "install -m ccze -v 1.0 -s /src/ccze");
    match manager.step_task("ccze", &task, ModuleStage::DkmsCommand, Err("gone".to_string())) {
        ModuleStep::Done(r) => assert_eq!(r, Err("Failed to install DKMS module: gone".to_string())),
        _ => panic!(),
    }
    let (task, _) = manager.remove_dkms_module("ccze", "1.0");
    let (_, _, args) = command(&manager.step_task("ccze", &task, ModuleStage::DkmsAvailable, out(true, "")));
    assert_eq!(args.join(" "), "remove -m ccze -v 1.0 --all");
}

#[test]
fn xdp_and_zram_loads_pass_parameters() {
    let zram = ZramDkmsManager::new(DkmsManager::new(DkmsConfig::default()));
    let (task, step) = zram.load_zram_with_params(8);
    let (stage, _, _) = command(&step);
    let (_, _, args) = command(&zram.dkms().step_task("zram", &task, stage, out(true, "h\n")));
    assert_eq!(args, vec!["zram".to_string(), "num_devices=8".to_string()]);
    let (stage, _, _) = command(&zram.ensure_zram());
    assert_eq!(stage, ModuleStage::CheckLoaded);
    let xdp = XdpDkmsManager::new(DkmsManager::new(DkmsConfig::default()));
    let (task, _) = xdp.load_xdp_with_params(&vec!["mode=native".to_string()]);
    let (_, _, args) = command(&xdp.dkms().step_task("xdp", &task, ModuleStage::CheckLoaded, out(true, "h\n")));
    assert_eq!(args, vec!["xdp".to_string(), "mode=native".to_string()]);
}

#[test]
fn lkm_load_falls_back_to_modprobe_and_insmod() {
    let mut lkm = LkmManager::new(&LsmConfig::default());
    let stage = match lkm.load() {
        LkmStep::Run { stage, command } => {
            assert_eq!(command.program, "lsmod");
            stage
        }
        LkmStep::Done(_) => panic!(),
    };
    assert_eq!(stage, LkmStage::Dkms(ModuleStage::CheckLoaded));
    let stage = match lkm.load_step(LkmStage::Dkms(ModuleStage::CheckDkms), out(false, "")) {
        LkmStep::Run { stage, command } => {
            assert_eq!(command.program, "modprobe");
            assert_eq!(command.args, vec!["ccze_lsm".to_string()]);
            stage
        }
        LkmStep::Done(_) => panic!(),
    };
    match lkm.load_step(stage, out(false, "")) {
        LkmStep::Run { stage, command } => {
            assert_eq!(stage, LkmStage::Insmod);
            assert_eq!(command.args, vec!["native/lkm/ccze_lsm.ko".to_string()]);
        }
        LkmStep::Done(_) => panic!(),
    }
    match lkm.load_step(LkmStage::Insmod, Err("absent".to_string())) {
        LkmStep::Done(r) => assert_eq!(r, Ok(false)),
        _ => panic!(),
    }
    match lkm.load_step(LkmStage::Modprobe, out(true, "")) {
        LkmStep::Done(r) => assert_eq!(r, Ok(true)),
        _ => panic!(),
    }
    assert_eq!(lkm.is_loaded(Err("lsmod missing".to_string())), Ok(true));
    assert_eq!(lkm.unload(out(true, "")), Ok(true));
    assert_eq!(lkm.is_loaded(out(true, "h\n")), Ok(false));
    assert_eq!(lkm.unload_command().args, vec!["ccze_lsm".to_string()]);
}

#[test]
fn lkm_version_and_framework_are_read() {
    let lkm = LkmManager::new(&LsmConfig::default());
    assert_eq!(lkm.get_version(out(true, "filename: x\nversion:  1.2.3 \nauthor: me\n")), Ok("1.2.3".to_string()));
    assert_eq!(lkm.get_version(out(true, "filename: x\n")), Ok("unknown".to_string()));
    assert_eq!(lkm.get_version(out(false, "version: 9\n")), Ok("unknown".to_string()));
    assert_eq!(lkm.get_version(Err("x".to_string())), Err("Failed to get LKM version: x".to_string()));
    assert_eq!(lkm.is_lsm_available("6.1\n", Some("# c\nCONFIG_LSM=\"yama\"\n"), false), Ok(true));
    assert_eq!(lkm.is_lsm_available("", Some("CONFIG_LSM=x\n"), false), Ok(false));
    assert_eq!(lkm.is_lsm_available("6.1", None, true), Ok(true));
}

#[test]
fn capsh_output_is_parsed_by_section() {
    let manager = CapabilityManager::new(LsmManager::new(LsmConfig::default()));
    let stdout = "Current: =ep\nBounding set =cap_chown,cap_kill,,cap_net_raw\nAmbient set =\nSecurebits: 00/0x0/1'b0\n  secure-noroot: no (unlocked)\n";
    assert_eq!(
        manager.get_bounding_set_capsh(out(true, stdout)),
        Ok(vec!["cap_chown".to_string(), "cap_kill".to_string(), "cap_net_raw".to_string()])
    );
    assert_eq!(manager.get_bounding_set_capsh(out(false, stdout)), Ok(Vec::new()));
    assert_eq!(
        manager.get_bounding_set_capsh(Err("no capsh".to_string())),
        Err("Failed to get bounding set with capsh: no capsh".to_string())
    );
    let listing = "Current: =ep cap_x\nBounding set: =cap_chown,cap_kill\n   cap_setuid other\nAmbient set:\n";
    let sections = manager.get_full_capabilities_capsh(out(true, listing)).unwrap();
    assert_eq!(sections.len(), 3);
    assert_eq!(sections.get("Current: =ep cap_x"), Some(&vec!["ep cap_x".to_string()]));
    assert_eq!(
        sections.get("Bounding set: =cap_chown,cap_kill"),
        Some(&vec!["cap_chown".to_string(), "cap_kill".to_string(), "cap_setuid".to_string()])
    );
    assert_eq!(sections.get("Ambient set:"), Some(&Vec::new()));
    assert_eq!(manager.get_full_capabilities_capsh(out(false, listing)).unwrap().len(), 0);
}
