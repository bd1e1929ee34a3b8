use gswitch::error::GswitchError;
use gswitch::power::{
    failure_report, nvidia_smi_candidates, pci_device_path, pci_driver_path, power_off_start, rebind_plan, unbind_targets,
    BoundFunction, PowerOff, PowerOffAction, PowerOffStart,
};

fn strings(v: &[&str]) -> Vec<String> {
    v.iter().map(|s| s.to_string()).collect()
}

#[test]
fn test_power_off_refused_while_busy() {
    match power_off_start(true, Some("0000:01:00.0".to_string()), true) {
        Err(GswitchError::Gpu(m)) => assert_eq!(m, "NVIDIA GPU 上仍有进程在运行，请先终止它们"),
        other => panic!("unexpected: {:?}", other),
    }
}

#[test]
fn test_power_off_start_outcomes() {
    match power_off_start(false, Some("0000:01:00.0".to_string()), true) {
        Ok(PowerOffStart::Proceed(p)) => assert_eq!(p, "0000:01:00.0"),
        other => panic!("unexpected: {:?}", other),
    }
    assert!(matches!(power_off_start(false, None, false), Ok(PowerOffStart::AlreadyOff)));
    match power_off_start(false, None, true) {
        Err(GswitchError::Gpu(m)) => assert_eq!(m, "无法获取 NVIDIA GPU 的 PCI ID，请检查系统状态"),
        other => panic!("unexpected: {:?}", other),
    }
}

#[test]
fn test_sysfs_paths() {
    assert_eq!(pci_device_path("0000:01:00.1", "remove"), "/sys/bus/pci/devices/0000:01:00.1/remove");
    assert_eq!(pci_device_path("0000:01:00.0", "power/control"), "/sys/bus/pci/devices/0000:01:00.0/power/control");
    assert_eq!(pci_driver_path("snd_hda_intel", "unbind"), "/sys/bus/pci/drivers/snd_hda_intel/unbind");
    assert_eq!(pci_driver_path("nvidia", "bind"), "/sys/bus/pci/drivers/nvidia/bind");
}

#[test]
fn test_unbind_targets_skip_unbound_functions() {
    let names = strings(&["0000:01:00.3", "0000:01:00.1", "0000:01:00.0"]);
    let drivers = vec![None, Some("snd_hda_intel".to_string()), Some("nvidia".to_string())];
    let t = unbind_targets(&names, &drivers);
    let got: Vec<(String, String)> = t.into_iter().map(|b| (b.name, b.driver)).collect();
    assert_eq!(
        got,
        vec![
            ("0000:01:00.1".to_string(), "snd_hda_intel".to_string()),
            ("0000:01:00.0".to_string(), "nvidia".to_string())
        ]
    );
}

#[test]
fn test_rebind_plan_reverses_successful_unbinds() {
    let targets = vec![
        BoundFunction { name: "0000:01:00.2".to_string(), driver: "xhci_hcd".to_string() },
        BoundFunction { name: "0000:01:00.1".to_string(), driver: "snd_hda_intel".to_string() },
        BoundFunction { name: "0000:01:00.0".to_string(), driver: "nvidia".to_string() },
    ];
    let errors = vec![None, None, Some("Device or resource busy".to_string())];
    let plan = rebind_plan(&targets, &errors);
    let got: Vec<(String, String)> = plan.into_iter().map(|b| (b.name, b.driver)).collect();
    assert_eq!(
        got,
        vec![
            ("0000:01:00.1".to_string(), "snd_hda_intel".to_string()),
            ("0000:01:00.2".to_string(), "xhci_hcd".to_string())
        ]
    );
    assert!(rebind_plan(&targets, &vec![Some("e".to_string()), Some("e".to_string()), Some("e".to_string())]).is_empty());
}

#[test]
fn test_failure_report_joins_messages() {
    let names = strings(&["0000:01:00.1", "0000:01:00.0"]);
    assert_eq!(failure_report("解绑", &names, &vec![None, None]), None);
    assert_eq!(
        failure_report("解绑", &names, &vec![None, Some("busy".to_string())]),
        Some("解绑 0000:01:00.0 失败: busy".to_string())
    );
    assert_eq!(
        failure_report("移除", &names, &vec![Some("e1".to_string()), Some("e2".to_string())]),
        Some("移除 0000:01:00.1 失败: e1; 移除 0000:01:00.0 失败: e2".to_string())
    );
}

#[test]
fn test_nvidia_smi_candidates_in_search_order() {
    assert_eq!(
        nvidia_smi_candidates(Some("/usr/local/bin:/opt/bin/::bin")),
        strings(&[
            "/usr/local/bin/nvidia-smi",
            "/opt/bin/nvidia-smi",
            "nvidia-smi",
            "bin/nvidia-smi",
            "/usr/bin/nvidia-smi",
            "/usr/local/bin/nvidia-smi",
            "/usr/local/sbin/nvidia-smi"
        ])
    );
}

#[test]
fn test_nvidia_smi_candidates_without_path() {
    assert_eq!(
        nvidia_smi_candidates(None),
        strings(&["/usr/bin/nvidia-smi", "/usr/local/bin/nvidia-smi", "/usr/local/sbin/nvidia-smi"])
    );
}

#[test]
fn test_driver_wait_steps() {
    assert_eq!(gswitch::power::driver_wait_step(false, 0), gswitch::power::DriverWait::Poll);
    assert_eq!(gswitch::power::driver_wait_step(true, 9999), gswitch::power::DriverWait::Settle);
    assert_eq!(gswitch::power::driver_wait_step(true, 10000), gswitch::power::DriverWait::GiveUp);
    assert_eq!(gswitch::power::driver_wait_step(false, 12000), gswitch::power::DriverWait::GiveUp);
}

fn names_of(bs: &[BoundFunction]) -> Vec<(String, String)> {
    bs.iter().map(|b| (b.name.clone(), b.driver.clone())).collect()
}

#[test]
fn test_power_off_protocol_success() {
    let functions = strings(&["0000:01:00.1", "0000:01:00.0"]);
    let drivers = vec![Some("snd_hda_intel".to_string()), Some("nvidia".to_string())];
    let (mut run, action) = PowerOff::start(functions, &drivers);
    match action {
        PowerOffAction::Unbind(t) => assert_eq!(
            names_of(&t),
            vec![
                ("0000:01:00.1".to_string(), "snd_hda_intel".to_string()),
                ("0000:01:00.0".to_string(), "nvidia".to_string())
            ]
        ),
        other => panic!("unexpected: {:?}", other),
    }
    match run.step(&vec![None, None]) {
        PowerOffAction::Remove(fs) => assert_eq!(fs, strings(&["0000:01:00.1", "0000:01:00.0"])),
        other => panic!("unexpected: {:?}", other),
    }
    assert!(matches!(run.step(&vec![None, None]), PowerOffAction::Done(Ok(()))));
}

#[test]
fn test_power_off_protocol_failures() {
    let functions = strings(&["0000:01:00.2", "0000:01:00.1", "0000:01:00.0"]);
    let drivers = vec![Some("xhci_hcd".to_string()), None, Some("nvidia".to_string())];
    let (mut run, _) = PowerOff::start(functions.clone(), &drivers);
    match run.step(&vec![None, Some("busy".to_string())]) {
        PowerOffAction::Rebind(t) => {
            assert_eq!(names_of(&t), vec![("0000:01:00.2".to_string(), "xhci_hcd".to_string())])
        }
        other => panic!("unexpected: {:?}", other),
    }
    match run.step(&vec![]) {
        PowerOffAction::Done(Err(GswitchError::Gpu(m))) => assert_eq!(m, "解绑 0000:01:00.0 失败: busy"),
        other => panic!("unexpected: {:?}", other),
    }
    let (mut run, _) = PowerOff::start(functions, &drivers);
    assert!(matches!(run.step(&vec![None, None]), PowerOffAction::Remove(_)));
    assert!(matches!(run.step(&vec![None, Some("EIO".to_string()), None]), PowerOffAction::Rescan));
    match run.step(&vec![]) {
        PowerOffAction::Done(Err(GswitchError::Gpu(m))) => assert_eq!(m, "移除 0000:01:00.1 失败: EIO"),
        other => panic!("unexpected: {:?}", other),
    }
}
