use gswitch::cache::CacheData;
use gswitch::config::{
    DEFAULT_DISCRETE_MODELS, EXTERNAL_DISPLAY_REQUIRES_NVIDIA, MODPROBE_GPU_PATH, NVIDIA_GPU_JSON_ALT_PATHS, PRIME_DISCRETE_PATH,
};
use gswitch::detector::{
    merge_supported_gpus, supported_gpu_candidates, supported_gpu_files, Detector, InitramfsTools, NvidiaDevice, PciDevice,
    SleepMode, SystemInfo,
};
use gswitch::error::GswitchError;
use gswitch::graphics::GraphicsMode;
use gswitch::helper::{CacheFile, HostState};

fn no_tools() -> InitramfsTools {
    InitramfsTools {
        ostree: false,
        sysroot_ostree: false,
        usr_sbin_update_initramfs: false,
        sbin_update_initramfs: false,
        usr_bin_mkinitcpio: false,
        usr_bin_dracut: false,
        usr_sbin_dracut: false,
        usr_bin_systemd_inhibit: false,
    }
}

fn empty_sys() -> SystemInfo {
    SystemInfo {
        chassis_type: String::new(),
        pci_devices: Ok(vec![]),
        product_version: String::new(),
        sys_vendor: String::new(),
        proc_modules: String::new(),
        mem_sleep: String::new(),
        supported_gpus: Err("未找到 supported-gpus.json（NVIDIA 驱动可能未安装）".to_string()),
        tools: no_tools(),
        xorg_conf_dir: false,
    }
}

fn dev(addr: &str, vendor: &str, device: &str, class: &str) -> PciDevice {
    PciDevice {
        name: addr.to_string(),
        vendor: format!("{vendor}\n"),
        device: format!("{device}\n"),
        class: format!("{class}\n"),
    }
}

fn dual_gpu_sys(chassis: &str) -> SystemInfo {
    let mut sys = empty_sys();
    sys.chassis_type = format!("{chassis}\n");
    sys.pci_devices = Ok(vec![
        dev("0000:00:02.0", "0x8086", "0x9bc4", "0x030000"),
        dev("0000:01:00.0", "0x10de", "0x1f08", "0x030000"),
    ]);
    sys
}

fn sleep_sys(content: &str) -> SystemInfo {
    let mut sys = empty_sys();
    sys.mem_sleep = content.to_string();
    sys
}

#[test]
fn test_detect_sleep_mode_s2idle() {
    assert_eq!(Detector::detect_sleep_mode(&sleep_sys("[s2idle] deep")), SleepMode::S0ix);
}

#[test]
fn test_detect_sleep_mode_s3() {
    assert_eq!(Detector::detect_sleep_mode(&sleep_sys("s2idle [deep]")), SleepMode::S3);
}

#[test]
fn test_detect_sleep_mode_unknown() {
    assert_eq!(Detector::detect_sleep_mode(&sleep_sys("")), SleepMode::Unknown);
}

#[test]
fn test_detect_sleep_mode_no_brackets() {
    assert_eq!(Detector::detect_sleep_mode(&sleep_sys("s2idle deep")), SleepMode::S0ix);
    assert_eq!(Detector::detect_sleep_mode(&sleep_sys("deep\n")), SleepMode::S3);
    assert_eq!(Detector::detect_sleep_mode(&sleep_sys("shallow")), SleepMode::Unknown);
}

#[test]
fn test_external_display_model_list_valid() {
    for model in EXTERNAL_DISPLAY_REQUIRES_NVIDIA {
        assert!(!model.is_empty());
        assert!(!model.contains(' '), "机型名不应含空格: {}", model);
    }
}

#[test]
fn test_default_discrete_models_valid() {
    for model in DEFAULT_DISCRETE_MODELS {
        assert!(!model.is_empty());
        assert!(!model.contains(' '), "机型名不应含空格: {}", model);
    }
}

#[test]
fn test_detect_all_classifies_display_controllers() {
    let mut sys = empty_sys();
    sys.pci_devices = Ok(vec![
        dev("0000:00:02.0", "0x8086", "0x9bc4", "0x030000"),
        dev("0000:01:00.0", "0x10de", "0x1f08", "0x030000"),
        dev("0000:01:00.1", "0x10de", "0x10f9", "0x040300"),
        dev("0000:05:00.0", "0x1002", "0x73df", "0x038000"),
        dev("0000:06:00.0", "0x1234", "0x0001", "0x030000"),
    ]);
    let g = Detector::detect_all(&sys).expect("detect");
    assert_eq!(g.nvidia.len(), 1);
    assert_eq!(g.nvidia[0].pci_id, "0000:01:00.0");
    assert_eq!(g.nvidia[0].device_id, 0x1f08);
    assert_eq!(g.intel.len(), 1);
    assert_eq!(g.amd.len(), 1);
    assert_eq!(g.amd[0].device_id, 0x73df);
}

#[test]
fn test_detect_all_without_pci_directory() {
    let mut sys = empty_sys();
    sys.pci_devices = Err("/sys/bus/pci/devices 不存在".to_string());
    assert!(matches!(Detector::detect_all(&sys), Err(GswitchError::Gpu(_))));
    assert!(!Detector::is_nvidia_online(&sys));
}

#[test]
fn test_detector_can_switch_with_dual_gpu() {
    let host = HostState::new(false);
    assert!(Detector::can_switch(&dual_gpu_sys("10"), &host).expect("can_switch"));
}

#[test]
fn test_detector_can_switch_desktop_rejected() {
    let host = HostState::new(false);
    assert!(!Detector::can_switch(&dual_gpu_sys("3"), &host).expect("can_switch"));
}

#[test]
fn test_detector_can_switch_nvidia_removed_but_cache_exists() {
    let mut sys = dual_gpu_sys("10");
    sys.pci_devices = Ok(vec![dev("0000:00:02.0", "0x8086", "0x9bc4", "0x030000")]);
    let mut host = HostState::new(false);
    assert!(!Detector::can_switch(&sys, &host).expect("can_switch"));
    host.load_cache(CacheFile::Present(CacheData { version: 1, nvidia_gpu_pci_bus: "PCI:1:0:0".to_string(), nvidia_device_ids: vec![] }));
    assert!(Detector::can_switch(&sys, &host).expect("can_switch"));
}

#[test]
fn test_detector_can_switch_desktop_without_pci_directory() {
    let mut sys = dual_gpu_sys("3");
    sys.pci_devices = Err("/sys/bus/pci/devices 不存在".to_string());
    let host = HostState::new(false);
    assert!(!Detector::can_switch(&sys, &host).expect("desktop"));
    sys.chassis_type = "10".to_string();
    assert!(Detector::can_switch(&sys, &host).is_err());
}

#[test]
fn test_detector_query_current_mode_nvidia() {
    let mut sys = empty_sys();
    sys.proc_modules = "nvidia 12345678 0 - Live 0x0000000000000000\n".to_string();
    let mut host = HostState::new(false);
    host.load_file(PRIME_DISCRETE_PATH, "on\n");
    assert_eq!(Detector::query_current_mode(&sys, &host), GraphicsMode::Nvidia);
}

#[test]
fn test_detector_query_current_mode_hybrid() {
    let mut sys = empty_sys();
    sys.proc_modules = "nvidia_drm 12345678 0 - Live 0x0000000000000000\n".to_string();
    let mut host = HostState::new(false);
    host.load_file(PRIME_DISCRETE_PATH, "on-demand\n");
    assert_eq!(Detector::query_current_mode(&sys, &host), GraphicsMode::Hybrid);
}

#[test]
fn test_detector_query_current_mode_integrated() {
    let mut sys = empty_sys();
    sys.proc_modules = "intel_lpss_pci 12345 0 - Live 0x...\n".to_string();
    let host = HostState::new(false);
    assert_eq!(Detector::query_current_mode(&sys, &host), GraphicsMode::Integrated);
}

#[test]
fn test_detector_query_current_mode_passthrough_and_comments() {
    let mut sys = empty_sys();
    sys.proc_modules = "nvidia 1 0 - Live 0x0\n".to_string();
    let mut host = HostState::new(false);
    host.load_file(MODPROBE_GPU_PATH, "# options vfio-pci ids=10de:1f08\n");
    host.load_file(PRIME_DISCRETE_PATH, "on\n");
    assert_eq!(Detector::query_current_mode(&sys, &host), GraphicsMode::Nvidia);
    host.load_file(MODPROBE_GPU_PATH, "blacklist nvidia\noptions vfio-pci ids=10de:1f08\n");
    assert_eq!(Detector::query_current_mode(&sys, &host), GraphicsMode::Passthrough);
}

#[test]
fn test_detector_query_current_mode_unknown_prime_is_nvidia() {
    let mut sys = empty_sys();
    sys.proc_modules = "  nvidia_current_drm 1 0\r\n".to_string();
    let mut host = HostState::new(false);
    host.load_file(PRIME_DISCRETE_PATH, "weird");
    assert_eq!(Detector::query_current_mode(&sys, &host), GraphicsMode::Nvidia);
    host.load_file(gswitch::config::MODESET_PATH, "");
    assert_eq!(Detector::query_current_mode(&sys, &host), GraphicsMode::Hybrid);
    sys.proc_modules = "nvidiafb 1 0\n".to_string();
    assert_eq!(Detector::query_current_mode(&sys, &host), GraphicsMode::Integrated);
}

#[test]
fn test_detector_external_display_requires_nvidia() {
    let mut sys = dual_gpu_sys("10");
    sys.product_version = "oryp8\n".to_string();
    let host = HostState::new(false);
    assert!(Detector::external_display_requires_nvidia(&sys, &host).expect("external_display_requires_nvidia"));
}

#[test]
fn test_detector_external_display_not_required() {
    let mut sys = dual_gpu_sys("10");
    sys.product_version = "unknown-model\n".to_string();
    let host = HostState::new(false);
    assert!(!Detector::external_display_requires_nvidia(&sys, &host).expect("external_display_requires_nvidia"));
}

#[test]
fn test_detector_external_display_ignores_case_and_rejects_desktop() {
    let mut sys = dual_gpu_sys("10");
    sys.product_version = "  ORYP8 \n".to_string();
    let host = HostState::new(false);
    assert!(Detector::external_display_requires_nvidia(&sys, &host).unwrap());
    let mut desk = dual_gpu_sys("7");
    desk.product_version = "oryp8".to_string();
    assert!(matches!(Detector::external_display_requires_nvidia(&desk, &host), Err(GswitchError::Gpu(_))));
}

#[test]
fn test_detector_get_default_nvidia_model() {
    let mut sys = dual_gpu_sys("10");
    sys.product_version = "bonw16\n".to_string();
    let host = HostState::new(false);
    assert_eq!(Detector::get_default(&sys, &host).expect("get_default"), GraphicsMode::Nvidia);
}

#[test]
fn test_detector_get_default_by_runtimepm() {
    let mut sys = dual_gpu_sys("10");
    sys.product_version = "lemp11".to_string();
    let host = HostState::new(false);
    assert_eq!(Detector::get_default(&sys, &host).unwrap(), GraphicsMode::Integrated);
    sys.supported_gpus = Ok(vec![
        NvidiaDevice { devid: "0x1F08".to_string(), name: "RTX 2060".to_string(), features: vec!["runtimepm".to_string()] },
    ]);
    assert_eq!(Detector::get_default(&sys, &host).unwrap(), GraphicsMode::Hybrid);
    let desk = dual_gpu_sys("3");
    assert!(matches!(Detector::get_default(&desk, &host), Err(GswitchError::NotSwitchable)));
}

#[test]
fn test_gpu_supports_runtimepm_lookup() {
    let mut sys = dual_gpu_sys("10");
    assert!(Detector::gpu_supports_runtimepm(&sys).is_err());
    sys.supported_gpus = Ok(vec![
        NvidiaDevice { devid: "0x1F07".to_string(), name: "a".to_string(), features: vec!["runtimepm".to_string()] },
        NvidiaDevice { devid: "0x1F08 ".to_string(), name: "b".to_string(), features: vec!["kernelopen".to_string()] },
        NvidiaDevice { devid: "0x1F08".to_string(), name: "c".to_string(), features: vec!["runtimepm".to_string()] },
    ]);
    assert!(!Detector::gpu_supports_runtimepm(&sys).unwrap());
    sys.pci_devices = Ok(vec![dev("0000:00:02.0", "0x8086", "0x9bc4", "0x030000")]);
    assert!(!Detector::gpu_supports_runtimepm(&sys).unwrap());
}

#[test]
fn test_get_nvidia_device_not_found_message() {
    let mut sys = empty_sys();
    sys.supported_gpus = Ok(vec![NvidiaDevice { devid: "0x1234".to_string(), name: "x".to_string(), features: vec![] }]);
    match Detector::get_nvidia_device(&sys, 0x1f08) {
        Err(GswitchError::Gpu(msg)) => assert!(msg.ends_with("设备 0x1f08"), "{}", msg),
        other => panic!("unexpected: {:?}", other),
    }
}

#[test]
fn test_nvidia_ids_and_pci_id() {
    let mut sys = dual_gpu_sys("10");
    let mut devs = std::mem::replace(&mut sys.pci_devices, Ok(vec![])).unwrap();
    devs.push(dev("0000:01:00.1", "0x10de", "0x10f9", "0x040300"));
    sys.pci_devices = Ok(devs);
    assert_eq!(Detector::get_nvidia_pci_id(&sys).unwrap(), "0000:01:00.0");
    assert_eq!(Detector::get_all_nvidia_ids(&sys).unwrap(), vec![(0x10de, 0x1f08), (0x10de, 0x10f9)]);
    let only_intel = dual_gpu_sys("10");
    let mut only_intel = only_intel;
    only_intel.pci_devices = Ok(vec![dev("0000:00:02.0", "0x8086", "0x9bc4", "0x030000")]);
    assert!(Detector::get_nvidia_pci_id(&only_intel).is_err());
    assert!(Detector::get_all_nvidia_ids(&only_intel).is_err());
}

#[test]
fn test_get_product_and_vendor_trimmed() {
    let mut sys = empty_sys();
    sys.product_version = "  oryp8\n".to_string();
    sys.sys_vendor = "System76\n".to_string();
    assert_eq!(Detector::get_product(&sys), "oryp8");
    assert_eq!(Detector::get_vendor(&sys), "System76");
}

fn chip(id: &str) -> NvidiaDevice {
    NvidiaDevice { devid: id.to_string(), name: "GPU".to_string(), features: vec!["runtimepm".to_string()] }
}

#[test]
fn test_supported_gpu_candidates_from_doc_dirs() {
    let entries: Vec<String> = vec![
        "/usr/share/doc/bash".to_string(),
        "/usr/share/doc/nvidia-driver-550".to_string(),
        "/usr/share/doc/nvidia-kernel-common-535".to_string(),
        "/usr/share/doc/nvidia".to_string(),
    ];
    assert_eq!(
        supported_gpu_candidates(&entries),
        vec![
            "/usr/share/doc/nvidia-driver-550/supported-gpus.json".to_string(),
            "/usr/share/doc/nvidia-kernel-common-535/supported-gpus.json".to_string()
        ]
    );
}

#[test]
fn test_supported_gpu_files_adds_alt_paths_once() {
    let found = vec![NVIDIA_GPU_JSON_ALT_PATHS[1].to_string()];
    assert_eq!(
        supported_gpu_files(found, &vec![true, true]).unwrap(),
        vec![NVIDIA_GPU_JSON_ALT_PATHS[1].to_string(), NVIDIA_GPU_JSON_ALT_PATHS[0].to_string()]
    );
    assert_eq!(supported_gpu_files(vec![], &vec![false, true]).unwrap(), vec![NVIDIA_GPU_JSON_ALT_PATHS[1].to_string()]);
    assert_eq!(
        supported_gpu_files(vec![], &vec![false, false]).unwrap_err(),
        "未找到 supported-gpus.json（NVIDIA 驱动可能未安装）"
    );
}

#[test]
fn test_merge_supported_gpus_skips_unparsed_files() {
    let merged = merge_supported_gpus(vec![Some(vec![chip("0x1F08")]), None, Some(vec![chip("0x2520"), chip("0x25A2")])]).unwrap();
    let ids: Vec<String> = merged.iter().map(|d| d.devid.clone()).collect();
    assert_eq!(ids, vec!["0x1F08", "0x2520", "0x25A2"]);
    assert_eq!(merge_supported_gpus(vec![None, Some(vec![])]).unwrap_err(), "supported-gpus.json 中未解析到任何设备条目");
}

fn gpu_message<T: std::fmt::Debug>(r: Result<T, GswitchError>) -> String {
    match r {
        Err(GswitchError::Gpu(m)) => m,
        other => panic!("unexpected: {:?}", other),
    }
}

#[test]
fn test_detector_error_messages() {
    let mut none = empty_sys();
    none.pci_devices = Err("/sys/bus/pci/devices 不存在".to_string());
    assert_eq!(gpu_message(Detector::detect_all(&none)), "/sys/bus/pci/devices 不存在");
    assert_eq!(gpu_message(Detector::get_nvidia_pci_id(&none)), "/sys/bus/pci/devices 不存在");
    let host = HostState::new(false);
    assert_eq!(gpu_message(Detector::can_switch(&none, &host)), "/sys/bus/pci/devices 不存在");
    let mut only_intel = empty_sys();
    only_intel.pci_devices = Ok(vec![dev("0000:00:02.0", "0x8086", "0x9bc4", "0x030000")]);
    assert_eq!(gpu_message(Detector::get_nvidia_pci_id(&only_intel)), "未找到 NVIDIA GPU");
    assert_eq!(gpu_message(Detector::get_all_nvidia_ids(&only_intel)), "未找到任何 NVIDIA PCI 设备");
    assert_eq!(gpu_message(Detector::external_display_requires_nvidia(&only_intel, &host)), "系统不支持 GPU 切换");
    let sys = dual_gpu_sys("10");
    assert_eq!(
        gpu_message(Detector::gpu_supports_runtimepm(&sys)),
        "未找到 supported-gpus.json（NVIDIA 驱动可能未安装）"
    );
    let mut listed = dual_gpu_sys("10");
    listed.supported_gpus = Ok(vec![chip("0x2520")]);
    assert_eq!(
        gpu_message(Detector::gpu_supports_runtimepm(&listed)),
        "在所有 supported-gpus.json 中均未找到设备 0x1f08"
    );
}

#[test]
fn test_name_listed_exact() {
    let names = vec!["oryp8".to_string(), "gaze18".to_string()];
    assert!(Detector::name_listed(&names, "gaze18"));
    assert!(!Detector::name_listed(&names, "GAZE18"));
    assert!(!Detector::name_listed(&vec![], "oryp8"));
}

#[test]
fn test_unreadable_pci_directory_reason_is_kept() {
    let mut sys = empty_sys();
    sys.pci_devices = Err("读取 PCI 目录失败: Permission denied (os error 13)".to_string());
    assert_eq!(gpu_message(Detector::detect_all(&sys)), "读取 PCI 目录失败: Permission denied (os error 13)");
    assert_eq!(gpu_message(Detector::get_all_nvidia_ids(&sys)), "读取 PCI 目录失败: Permission denied (os error 13)");
}
