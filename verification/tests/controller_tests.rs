use gswitch::cache::{CacheData, NvidiaDeviceId};
use gswitch::config::{
    INITRAMFS_TOOLS_MODULES_PATH, MODESET_CONTENT, MODPROBE_GPU_PATH, MODPROBE_INTEGRATED, NV_ENV_PATH,
    PRIME_DISCRETE_PATH, UDEV_INTEGRATED_PATH, UDEV_PM_PATH, XORG_CONF_NVIDIA_FALLBACK_PATH, XORG_CONF_NVIDIA_PATH,
};
use gswitch::detector::{InitramfsTools, NvidiaDevice, PciDevice, SystemInfo};
use gswitch::error::GswitchError;
use gswitch::graphics::{GpuController, GraphicsMode, NvidiaOptions, PowerAction, SwitchOptions};
use gswitch::helper::{CacheFile, HostState};

fn tools() -> InitramfsTools {
    InitramfsTools {
        ostree: false,
        sysroot_ostree: false,
        usr_sbin_update_initramfs: true,
        sbin_update_initramfs: false,
        usr_bin_mkinitcpio: false,
        usr_bin_dracut: false,
        usr_sbin_dracut: false,
        usr_bin_systemd_inhibit: false,
    }
}

fn dev(addr: &str, vendor: &str, device: &str, class: &str) -> PciDevice {
    PciDevice {
        name: addr.to_string(),
        vendor: format!("{vendor}\n"),
        device: format!("{device}\n"),
        class: format!("{class}\n"),
    }
}

/// A laptop with an Intel GPU and an NVIDIA GPU with its audio function.
fn laptop() -> SystemInfo {
    SystemInfo {
        chassis_type: "10\n".to_string(),
        pci_devices: Ok(vec![
            dev("0000:00:02.0", "0x8086", "0x9bc4", "0x030000"),
            dev("0000:01:00.0", "0x10de", "0x1f08", "0x030000"),
            dev("0000:01:00.1", "0x10de", "0x10f9", "0x040300"),
        ]),
        product_version: "oryp8\n".to_string(),
        sys_vendor: "System76\n".to_string(),
        proc_modules: "nvidia_drm 77824 4 - Live 0x0\nnvidia 35323904 54 nvidia_drm, Live 0x0\n".to_string(),
        mem_sleep: "[s2idle] deep\n".to_string(),
        supported_gpus: Ok(vec![NvidiaDevice {
            devid: "0x1F08".to_string(),
            name: "GeForce RTX 2060".to_string(),
            features: vec!["runtimepm".to_string()],
        }]),
        tools: tools(),
        xorg_conf_dir: true,
    }
}

/// The same laptop after integrated mode removed the NVIDIA functions.
fn laptop_without_nvidia() -> SystemInfo {
    let mut sys = laptop();
    sys.pci_devices = Ok(vec![dev("0000:00:02.0", "0x8086", "0x9bc4", "0x030000")]);
    sys.proc_modules = String::new();
    sys
}

fn content(host: &HostState, path: &str) -> Option<String> {
    host.file_entries().iter().find(|(p, _)| p == path).map(|(_, c)| c.clone())
}

fn service(host: &HostState, name: &str) -> Option<bool> {
    host.service_entries().iter().find(|(n, _)| n == name).map(|(_, b)| *b)
}

fn opts(mode: GraphicsMode, rtd3: Option<u32>) -> SwitchOptions {
    SwitchOptions { mode, nvidia_opts: NvidiaOptions { rtd3, coolbits: None, force_comp: false } }
}

fn cached_bus(host: &HostState) -> Option<(String, Vec<(u16, u16)>)> {
    match host.cache_file() {
        CacheFile::Present(d) => {
            Some((d.nvidia_gpu_pci_bus.clone(), d.nvidia_device_ids.iter().map(|i| (i.vendor, i.device)).collect()))
        }
        _ => None,
    }
}

#[test]
fn test_switch_to_hybrid_writes_mode_files_and_queues_rebuild() {
    let sys = laptop();
    let mut host = HostState::new(false);
    host.load_file(UDEV_INTEGRATED_PATH, "old rules\n");
    let snap = GpuController::switch_mode(&opts(GraphicsMode::Hybrid, Some(2)), &sys, &mut host);
    assert!(snap.is_ok());
    let modprobe = content(&host, MODPROBE_GPU_PATH).unwrap();
    assert!(modprobe.contains("NVreg_DynamicPowerManagement=0x02"));
    assert!(modprobe.ends_with("options nvidia NVreg_EnableS0ixPowerManagement=1"));
    assert!(content(&host, UDEV_PM_PATH).is_some());
    assert_eq!(content(&host, UDEV_INTEGRATED_PATH), None);
    assert_eq!(content(&host, PRIME_DISCRETE_PATH).unwrap(), "on-demand");
    assert_eq!(service(&host, "nvidia-powerd.service"), Some(true));
    assert_eq!(service(&host, "nvidia-fallback.service"), Some(false));
    assert_eq!(service(&host, "nvidia-suspend.service"), Some(true));
    assert_eq!(cached_bus(&host), Some(("PCI:1:0:0".to_string(), vec![(0x10de, 0x1f08), (0x10de, 0x10f9)])));
    let cmds = host.take_commands();
    assert_eq!(cmds.len(), 1);
    assert_eq!(cmds[0].program, "update-initramfs");
    assert_eq!(cmds[0].args, vec!["-u"]);
    assert_eq!(GpuController::query_mode(&sys, &host), GraphicsMode::Hybrid);
}

#[test]
fn test_switch_to_nvidia_and_integrated() {
    let sys = laptop();
    let mut host = HostState::new(false);
    GpuController::switch_mode(&opts(GraphicsMode::Nvidia, None), &sys, &mut host).unwrap();
    assert!(content(&host, MODPROBE_GPU_PATH).unwrap().starts_with(MODESET_CONTENT));
    assert!(content(&host, XORG_CONF_NVIDIA_PATH).is_some());
    assert!(content(&host, XORG_CONF_NVIDIA_FALLBACK_PATH).is_none());
    assert!(content(&host, NV_ENV_PATH).unwrap().contains("__NV_PRIME_RENDER_OFFLOAD=1"));
    assert_eq!(content(&host, PRIME_DISCRETE_PATH).unwrap(), "on");
    assert_eq!(service(&host, "nvidia-fallback.service"), Some(true));
    assert_eq!(GpuController::query_mode(&sys, &host), GraphicsMode::Nvidia);

    GpuController::switch_mode(&opts(GraphicsMode::Integrated, None), &sys, &mut host).unwrap();
    assert_eq!(content(&host, MODPROBE_GPU_PATH).unwrap(), MODPROBE_INTEGRATED);
    assert!(content(&host, UDEV_INTEGRATED_PATH).is_some());
    assert!(content(&host, XORG_CONF_NVIDIA_PATH).is_none());
    assert!(content(&host, NV_ENV_PATH).is_none());
    assert_eq!(content(&host, PRIME_DISCRETE_PATH).unwrap(), "off");
    assert_eq!(service(&host, "nvidia-powerd.service"), Some(false));
    assert_eq!(GpuController::query_mode(&laptop_without_nvidia(), &host), GraphicsMode::Integrated);
}

#[test]
fn test_switch_to_passthrough_from_cache_after_integrated() {
    let mut host = HostState::new(false);
    host.load_file(INITRAMFS_TOOLS_MODULES_PATH, "lz4\n");
    host.load_cache(CacheFile::Present(CacheData {
        version: 2,
        nvidia_gpu_pci_bus: "PCI:1:0:0".to_string(),
        nvidia_device_ids: vec![NvidiaDeviceId { vendor: 0x10de, device: 0x1f08 }, NvidiaDeviceId { vendor: 0x10de, device: 0x10f9 }],
    }));
    let sys = laptop_without_nvidia();
    GpuController::switch_mode(&opts(GraphicsMode::Passthrough, None), &sys, &mut host).unwrap();
    let modprobe = content(&host, MODPROBE_GPU_PATH).unwrap();
    assert!(modprobe.ends_with("options vfio-pci ids=10de:1f08,10de:10f9\n"));
    assert_eq!(
        content(&host, INITRAMFS_TOOLS_MODULES_PATH).unwrap(),
        "lz4\n# Added by gswitch for VFIO passthrough\nvfio_pci\n"
    );
    assert_eq!(content(&host, PRIME_DISCRETE_PATH).unwrap(), "off");
    assert_eq!(GpuController::query_mode(&sys, &host), GraphicsMode::Passthrough);
}

#[test]
fn test_failed_switch_restores_files() {
    let sys = laptop_without_nvidia();
    let mut host = HostState::new(false);
    host.load_file(MODPROBE_GPU_PATH, "# Automatically generated by gswitch\nmine\n");
    host.load_file(PRIME_DISCRETE_PATH, "on-demand");
    host.load_cache(CacheFile::Present(CacheData {
        version: 2,
        nvidia_gpu_pci_bus: "PCI:1:0:0".to_string(),
        nvidia_device_ids: vec![],
    }));
    match GpuController::switch_mode(&opts(GraphicsMode::Passthrough, None), &sys, &mut host) {
        Err(GswitchError::Gpu(m)) => {
            assert_eq!(m, "未检测到 NVIDIA GPU 设备且缓存中无设备 ID（请先切换到混合模式生成缓存）")
        }
        other => panic!("unexpected: {:?}", other.map(|_| ())),
    }
    assert_eq!(content(&host, MODPROBE_GPU_PATH).unwrap(), "# Automatically generated by gswitch\nmine\n");
    assert_eq!(content(&host, PRIME_DISCRETE_PATH).unwrap(), "on-demand");
    assert_eq!(host.file_entries().len(), 2);
    let cmds = host.take_commands();
    assert_eq!(cmds.len(), 1);
    assert_eq!(cmds[0].program, "update-initramfs");
}

#[test]
fn test_switch_refused_on_desktop_and_without_tools() {
    let mut desk = laptop();
    desk.chassis_type = "3\n".to_string();
    let mut host = HostState::new(false);
    match GpuController::switch_mode(&opts(GraphicsMode::Hybrid, None), &desk, &mut host) {
        Err(GswitchError::Gpu(m)) => assert_eq!(m, "系统不支持 GPU 切换"),
        other => panic!("unexpected: {:?}", other.map(|_| ())),
    }
    assert!(host.file_entries().is_empty());
    let mut bare = laptop();
    bare.tools.usr_sbin_update_initramfs = false;
    match GpuController::switch_mode(&opts(GraphicsMode::Hybrid, None), &bare, &mut host) {
        Err(GswitchError::Gpu(m)) => {
            assert_eq!(m, "未找到可用的 initramfs 重建工具（支持: dracut, update-initramfs, mkinitcpio, rpm-ostree）")
        }
        other => panic!("unexpected: {:?}", other.map(|_| ())),
    }
    assert!(host.file_entries().is_empty());
    assert!(host.take_commands().is_empty());
}

#[test]
fn test_preview_switch_changes_nothing() {
    let sys = laptop();
    let mut host = HostState::new(true);
    host.load_file(MODPROBE_GPU_PATH, "keep\n");
    GpuController::switch_mode(&opts(GraphicsMode::Nvidia, None), &sys, &mut host).unwrap();
    assert_eq!(content(&host, MODPROBE_GPU_PATH).unwrap(), "keep\n");
    assert_eq!(host.file_entries().len(), 1);
    assert!(host.service_entries().is_empty());
    assert!(matches!(host.cache_file(), CacheFile::Absent));
    assert!(host.take_commands().is_empty());
}

#[test]
fn test_snapshot_from_switch_rolls_back() {
    let sys = laptop();
    let mut host = HostState::new(false);
    host.load_file(MODPROBE_GPU_PATH, "before\n");
    host.load_service("nvidia-powerd.service", false);
    let snap = GpuController::switch_mode(&opts(GraphicsMode::Hybrid, None), &sys, &mut host).unwrap();
    assert_eq!(service(&host, "nvidia-powerd.service"), Some(true));
    snap.restore(&mut host);
    assert_eq!(content(&host, MODPROBE_GPU_PATH).unwrap(), "before\n");
    assert_eq!(content(&host, UDEV_PM_PATH), None);
    assert_eq!(content(&host, PRIME_DISCRETE_PATH), None);
    assert_eq!(service(&host, "nvidia-powerd.service"), Some(false));
}

#[test]
fn test_reset_and_cache_commands() {
    let sys = laptop();
    let mut host = HostState::new(false);
    GpuController::switch_mode(&opts(GraphicsMode::Hybrid, None), &sys, &mut host).unwrap();
    host.take_commands();
    assert!(GpuController::cache_query(&host).is_ok());
    GpuController::cache_delete(&mut host).unwrap();
    assert_eq!(GpuController::cache_query(&host).unwrap_err(), "无缓存数据");
    GpuController::cache_create(&sys, &mut host).unwrap();
    assert_eq!(GpuController::cache_query(&host).unwrap().nvidia_gpu_pci_bus, "PCI:1:0:0");
    GpuController::reset(&sys, &mut host).unwrap();
    assert!(host.file_entries().is_empty());
    assert!(matches!(host.cache_file(), CacheFile::Absent));
    assert_eq!(host.take_commands().len(), 1);
    match GpuController::cache_create(&sys, &mut host) {
        Err(GswitchError::Input(m)) => assert_eq!(m, "缓存创建需要混合或直通模式处于激活状态"),
        other => panic!("unexpected: {:?}", other),
    }
}

#[test]
fn test_power_actions() {
    let sys = laptop();
    let host = HostState::new(false);
    assert_eq!(GpuController::power(PowerAction::Off, &sys, &host), Some(PowerAction::Off));
    // NVIDIA modules loaded and no configuration: NVIDIA mode, so on.
    assert_eq!(GpuController::power(PowerAction::Auto, &sys, &host), Some(PowerAction::On));
    let mut integrated = HostState::new(false);
    integrated.load_file(MODPROBE_GPU_PATH, MODPROBE_INTEGRATED);
    let mut off_sys = laptop();
    off_sys.proc_modules = String::new();
    off_sys.supported_gpus = Ok(vec![]);
    // Integrated mode without runtime PM support: power the GPU off.
    assert_eq!(GpuController::power(PowerAction::Auto, &off_sys, &integrated), Some(PowerAction::Off));
    // Runtime PM supported: keep it on.
    let mut pm_sys = laptop();
    pm_sys.proc_modules = String::new();
    assert_eq!(GpuController::power(PowerAction::Auto, &pm_sys, &integrated), Some(PowerAction::On));
    // Already off: nothing to do.
    let mut gone = laptop_without_nvidia();
    gone.supported_gpus = Ok(vec![]);
    assert_eq!(GpuController::power(PowerAction::Auto, &gone, &integrated), None);
    assert!(GpuController::query_power(&sys));
    assert!(!GpuController::query_power(&laptop_without_nvidia()));
}

#[test]
fn test_rollback_after_failed_write_back() {
    let sys = laptop();
    let mut host = HostState::new(false);
    host.load_file(MODPROBE_GPU_PATH, "before\n");
    host.load_service("nvidia-powerd.service", false);
    let snap = GpuController::switch_mode(&opts(GraphicsMode::Hybrid, None), &sys, &mut host).unwrap();
    host.take_commands();
    let mut back = gswitch::helper::rollback(&snap, &sys, &host);
    assert_eq!(content(&back, MODPROBE_GPU_PATH).unwrap(), "before\n");
    assert_eq!(content(&back, UDEV_PM_PATH), None);
    assert_eq!(service(&back, "nvidia-powerd.service"), Some(false));
    let mut writes = gswitch::helper::files_to_write(host.file_entries(), back.file_entries());
    writes.sort();
    assert_eq!(writes, vec![(MODPROBE_GPU_PATH.to_string(), "before\n".to_string())]);
    let mut removes = gswitch::helper::files_to_remove(host.file_entries(), back.file_entries());
    removes.sort();
    assert_eq!(removes, vec![PRIME_DISCRETE_PATH.to_string(), UDEV_PM_PATH.to_string()]);
    let cmds = back.take_commands();
    assert_eq!(cmds.len(), 1);
    assert_eq!(cmds[0].program, "update-initramfs");
    // The switched host itself is untouched.
    assert!(content(&host, UDEV_PM_PATH).is_some());
}

#[test]
fn test_preview_switch_shows_planned_changes() {
    let sys = laptop();
    let mut host = HostState::new(true);
    host.load_file(UDEV_INTEGRATED_PATH, "old rules\n");
    let mut plan = GpuController::preview_switch(&opts(GraphicsMode::Nvidia, None), &sys, &host);
    assert!(!plan.is_dry_run());
    assert_eq!(content(&plan, PRIME_DISCRETE_PATH).unwrap(), "on");
    assert_eq!(content(&plan, UDEV_INTEGRATED_PATH), None);
    assert_eq!(service(&plan, "nvidia-fallback.service"), Some(true));
    assert_eq!(plan.take_commands()[0].program, "update-initramfs");
    // The previewed host is not changed.
    assert_eq!(content(&host, UDEV_INTEGRATED_PATH).unwrap(), "old rules\n");
    assert_eq!(host.file_entries().len(), 1);
    let copy = host.copy_as(false);
    assert!(host.is_dry_run() && !copy.is_dry_run());
    assert_eq!(copy.file_entries(), host.file_entries());
}
