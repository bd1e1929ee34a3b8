use gswitch::config::{
    INITRAMFS_TOOLS_MODULES_PATH, MODESET_CONTENT, MODESET_PATH, MODPROBE_GPU_PATH, MODPROBE_INTEGRATED,
    PRIME_DISCRETE_PATH, UDEV_INTEGRATED, UDEV_INTEGRATED_PATH, UDEV_PM_CONTENT, UDEV_PM_PATH,
};
use gswitch::detector::{InitramfsTools, SystemInfo};
use gswitch::graphics::{GraphicsMode, PowerAction};
use gswitch::helper::{
    self, add_vfio_to_initramfs, same_cache_file, CacheFile, append_sleep_config, cleanup, has_output_lines, is_enabled_reply, power_control_value,
    power_off_functions, rebuild_initramfs, ConfigSnapshot, HostState, PciFunction,
};

fn tools() -> InitramfsTools {
    InitramfsTools {
        ostree: false,
        sysroot_ostree: false,
        usr_sbin_update_initramfs: false,
        sbin_update_initramfs: false,
        usr_bin_mkinitcpio: false,
        usr_bin_dracut: false,
        usr_sbin_dracut: false,
        usr_bin_systemd_inhibit: false,
    }
}

fn sys_with(tools: InitramfsTools, mem_sleep: &str) -> SystemInfo {
    SystemInfo {
        chassis_type: String::new(),
        pci_devices: Ok(vec![]),
        product_version: String::new(),
        sys_vendor: String::new(),
        proc_modules: String::new(),
        mem_sleep: mem_sleep.to_string(),
        supported_gpus: Err("none".to_string()),
        tools,
        xorg_conf_dir: true,
    }
}

fn content(host: &HostState, path: &str) -> Option<String> {
    host.file_entries().iter().find(|(p, _)| p == path).map(|(_, c)| c.clone())
}

#[test]
fn test_write_and_remove_file() {
    let mut host = HostState::new(false);
    let path = "/etc/test-gswitch.conf";
    helper::write_file(&mut host, path, "hello world").expect("write");
    assert!(helper::file_exists(&host, path));
    assert_eq!(helper::read_file(&host, path).unwrap(), "hello world");
    helper::remove_file(&mut host, path).expect("remove");
    assert!(!helper::file_exists(&host, path));
}

#[test]
fn test_remove_nonexistent_file_no_error() {
    let mut host = HostState::new(false);
    assert!(helper::remove_file(&mut host, "/etc/nonexistent-gswitch.conf").is_ok());
}

#[test]
fn test_atomic_write_with_parent_creation() {
    let mut host = HostState::new(false);
    let path = "/var/cache/gswitch/test.json";
    helper::write_file(&mut host, path, "{}").expect("write");
    assert!(helper::file_exists(&host, path));
}

#[test]
fn test_dry_run_does_not_write() {
    let mut host = HostState::new(true);
    let path = "/etc/dry-run-test.conf";
    helper::write_file(&mut host, path, "should not appear").expect("dry-run write");
    assert!(!helper::file_exists(&host, path), "dry-run 不应创建文件");
}

#[test]
fn test_dry_run_remove_does_nothing() {
    let mut host = HostState::new(true);
    let path = "/etc/to-keep.conf";
    host.load_file(path, "keep me");
    helper::remove_file(&mut host, path).expect("dry-run remove");
    assert!(helper::file_exists(&host, path));
}

#[test]
fn test_read_missing_file_is_error() {
    let host = HostState::new(false);
    assert!(matches!(helper::read_file(&host, "/etc/none"), Err(gswitch::error::GswitchError::Gpu(_))));
}

#[test]
fn test_config_snapshot_save_and_restore() {
    let mut host = HostState::new(false);
    let path = "/etc/test-snapshot.conf";
    host.load_file(path, "original content");
    let snapshot = ConfigSnapshot::save(&host, &["/etc/test-snapshot.conf"]).expect("save");
    helper::write_file(&mut host, path, "modified content").expect("modify");
    snapshot.restore(&mut host);
    assert_eq!(content(&host, path).unwrap(), "original content");
}

#[test]
fn test_config_snapshot_restore_nonexistent_file() {
    let mut host = HostState::new(false);
    let path = "/etc/was-never-there.conf";
    let snapshot = ConfigSnapshot::save(&host, &[path]).expect("save");
    helper::write_file(&mut host, path, "new content").expect("create");
    assert!(helper::file_exists(&host, path));
    snapshot.restore(&mut host);
    assert!(!helper::file_exists(&host, path), "文件应被删除: {}", path);
}

#[test]
fn test_config_snapshot_leaves_other_paths_and_restores_services() {
    let mut host = HostState::new(false);
    host.load_service("nvidia-suspend.service", false);
    let snapshot = ConfigSnapshot::save(&host, &[MODPROBE_GPU_PATH]).expect("save");
    helper::write_file(&mut host, "/etc/other.conf", "x").unwrap();
    helper::write_file(&mut host, MODPROBE_GPU_PATH, "y").unwrap();
    helper::toggle_service(&mut host, "nvidia-suspend.service", true).unwrap();
    helper::toggle_service(&mut host, "nvidia-resume.service", true).unwrap();
    snapshot.restore(&mut host);
    assert!(!helper::file_exists(&host, MODPROBE_GPU_PATH));
    assert_eq!(content(&host, "/etc/other.conf").unwrap(), "x");
    assert_eq!(helper::service_is_enabled(&host, "nvidia-suspend.service"), Some(false));
    assert_eq!(helper::service_is_enabled(&host, "nvidia-resume.service"), Some(true));
}

#[test]
fn test_cleanup_removes_config_files() {
    let mut host = HostState::new(false);
    let paths = [MODPROBE_GPU_PATH, MODESET_PATH, UDEV_INTEGRATED_PATH, UDEV_PM_PATH, PRIME_DISCRETE_PATH];
    for &path in &paths {
        host.load_file(path, "# test");
        assert!(helper::file_exists(&host, path));
    }
    cleanup(&mut host).expect("cleanup");
    for &path in &paths {
        assert!(!helper::file_exists(&host, path), "{} 应被清理", path);
    }
}

#[test]
fn test_cleanup_filters_initramfs_modules() {
    let mut host = HostState::new(false);
    host.load_file(INITRAMFS_TOOLS_MODULES_PATH, "lz4\n# Added by gswitch for VFIO passthrough\nvfio_pci\n  vfio_pci  \nbtrfs");
    cleanup(&mut host).unwrap();
    assert_eq!(content(&host, INITRAMFS_TOOLS_MODULES_PATH).unwrap(), "lz4\nbtrfs\n");
    host.load_file(INITRAMFS_TOOLS_MODULES_PATH, "vfio_pci\n");
    cleanup(&mut host).unwrap();
    assert_eq!(content(&host, INITRAMFS_TOOLS_MODULES_PATH).unwrap(), "\n");
}

#[test]
fn test_switch_integrated_writes_correct_configs() {
    let mut host = HostState::new(false);
    helper::write_file(&mut host, MODPROBE_GPU_PATH, MODPROBE_INTEGRATED).expect("write modprobe");
    helper::write_file(&mut host, UDEV_INTEGRATED_PATH, UDEV_INTEGRATED).expect("write udev");
    let modprobe_content = content(&host, MODPROBE_GPU_PATH).unwrap();
    assert!(modprobe_content.contains("blacklist nvidia"));
    assert!(modprobe_content.contains("blacklist nvidia-drm"));
    assert!(modprobe_content.contains("blacklist nvidia"));
    let udev_content = content(&host, UDEV_INTEGRATED_PATH).unwrap();
    assert!(udev_content.contains("ATTR{remove}=\"1\""));
    assert!(udev_content.contains("0x10de"));
}

#[test]
fn test_switch_nvidia_writes_correct_configs() {
    let mut host = HostState::new(false);
    helper::write_file(&mut host, MODPROBE_GPU_PATH, MODESET_CONTENT).expect("write modprobe");
    let modprobe_content = content(&host, MODPROBE_GPU_PATH).unwrap();
    assert!(!modprobe_content.contains("blacklist"), "NVIDIA 模式不应黑名单");
    assert!(modprobe_content.contains("modeset=1"), "NVIDIA 模式应包含 modeset=1");
    assert!(modprobe_content.contains("NVreg_UsePageAttributeTable=1"));
}

#[test]
fn test_switch_hybrid_writes_correct_configs() {
    let mut host = HostState::new(false);
    let modeset_hybrid = "# Automatically generated by gswitch\n\
        options nvidia-drm modeset=1\n\
        options nvidia NVreg_UsePageAttributeTable=1 NVreg_InitializeSystemMemoryAllocations=0\n";
    helper::write_file(&mut host, MODPROBE_GPU_PATH, modeset_hybrid).expect("write modprobe");
    helper::write_file(&mut host, UDEV_PM_PATH, UDEV_PM_CONTENT).expect("write udev pm");
    let modprobe_content = content(&host, MODPROBE_GPU_PATH).unwrap();
    assert!(!modprobe_content.contains("blacklist"));
    assert!(modprobe_content.contains("modeset=1"));
    let udev_pm_content = content(&host, UDEV_PM_PATH).unwrap();
    assert!(udev_pm_content.contains("power/control"));
    assert!(udev_pm_content.contains("ACTION==\"bind\""));
}

#[test]
fn test_switch_passthrough_writes_vfio_modprobe() {
    let mut host = HostState::new(false);
    let vfio_content = "# Automatically generated by gswitch - VFIO Passthrough mode\n\
        blacklist nouveau\n\
        blacklist nvidia\n\
        blacklist nvidia-drm\n\
        blacklist nvidia-modeset\n\
        blacklist nvidia-uvm\n\
        install nouveau /bin/false\n\
        install nvidia /bin/false\n\
        install nvidia-drm /bin/false\n\
        install nvidia-modeset /bin/false\n\
        install nvidia-uvm /bin/false\n\
        options vfio-pci ids=10de:1f08,10de:10f8\n";
    helper::write_file(&mut host, MODPROBE_GPU_PATH, vfio_content).expect("write modprobe");
    let c = content(&host, MODPROBE_GPU_PATH).unwrap();
    assert!(c.contains("options vfio-pci ids="));
    assert!(c.contains("blacklist nvidia"));
}

#[test]
fn test_add_vfio_to_initramfs_by_tool() {
    let mut t = tools();
    t.usr_sbin_update_initramfs = true;
    let mut host = HostState::new(false);
    host.load_file(INITRAMFS_TOOLS_MODULES_PATH, "lz4\n\n");
    add_vfio_to_initramfs(&sys_with(t, ""), &mut host).unwrap();
    assert_eq!(content(&host, INITRAMFS_TOOLS_MODULES_PATH).unwrap(), "lz4\n# Added by gswitch for VFIO passthrough\nvfio_pci\n");
    add_vfio_to_initramfs(&sys_with(t, ""), &mut host).unwrap();
    assert_eq!(content(&host, INITRAMFS_TOOLS_MODULES_PATH).unwrap(), "lz4\n# Added by gswitch for VFIO passthrough\nvfio_pci\n");
    let mut d = tools();
    d.usr_bin_dracut = true;
    add_vfio_to_initramfs(&sys_with(d, ""), &mut host).unwrap();
    assert!(content(&host, gswitch::config::DRACUT_VFIO_CONF_PATH).unwrap().contains("vfio_pci"));
}

#[test]
fn test_rebuild_initramfs_command_choice() {
    let mut t = tools();
    let mut host = HostState::new(false);
    assert!(rebuild_initramfs(&sys_with(t, ""), &mut host).is_err());
    t.usr_bin_mkinitcpio = true;
    rebuild_initramfs(&sys_with(t, ""), &mut host).unwrap();
    t.usr_sbin_update_initramfs = true;
    rebuild_initramfs(&sys_with(t, ""), &mut host).unwrap();
    t.usr_bin_dracut = true;
    rebuild_initramfs(&sys_with(t, ""), &mut host).unwrap();
    t.usr_bin_systemd_inhibit = true;
    rebuild_initramfs(&sys_with(t, ""), &mut host).unwrap();
    t.ostree = true;
    rebuild_initramfs(&sys_with(t, ""), &mut host).unwrap();
    let cmds = host.take_commands();
    assert_eq!(cmds.len(), 5);
    assert_eq!(cmds[0].program, "mkinitcpio");
    assert_eq!(cmds[0].args, vec!["-P"]);
    assert_eq!(cmds[1].program, "update-initramfs");
    assert_eq!(cmds[1].args, vec!["-u"]);
    assert_eq!(cmds[2].program, "dracut");
    assert_eq!(cmds[2].args, vec!["--force", "--regenerate-all"]);
    assert_eq!(cmds[3].program, "systemd-inhibit");
    assert_eq!(cmds[3].args, vec!["--who=gswitch", "--why=Rebuilding initramfs", "--", "dracut", "--force", "--regenerate-all"]);
    assert_eq!(cmds[4].program, "rpm-ostree");
    assert_eq!(cmds[4].args, vec!["initramfs", "--enable", "--arg=--force"]);
    assert!(host.take_commands().is_empty());
    let mut dry = HostState::new(true);
    assert!(rebuild_initramfs(&sys_with(tools(), ""), &mut dry).is_ok());
    assert!(dry.take_commands().is_empty());
}

#[test]
fn test_append_sleep_config() {
    let mut host = HostState::new(false);
    host.load_file(MODPROBE_GPU_PATH, "# Automatically generated by gswitch\n");
    let sys = sys_with(tools(), "[s2idle] deep");
    append_sleep_config(&sys, &mut host, GraphicsMode::Hybrid).unwrap();
    assert_eq!(content(&host, MODPROBE_GPU_PATH).unwrap(), "options nvidia NVreg_EnableS0ixPowerManagement=1\n");
    assert_eq!(helper::service_is_enabled(&host, "nvidia-suspend.service"), Some(true));
    append_sleep_config(&sys, &mut host, GraphicsMode::Hybrid).unwrap();
    assert_eq!(content(&host, MODPROBE_GPU_PATH).unwrap(), "options nvidia NVreg_EnableS0ixPowerManagement=1\n");

    let mut h2 = HostState::new(false);
    h2.load_file(MODPROBE_GPU_PATH, MODESET_CONTENT);
    append_sleep_config(&sys_with(tools(), "s2idle [deep]"), &mut h2, GraphicsMode::Nvidia).unwrap();
    assert_eq!(
        content(&h2, MODPROBE_GPU_PATH).unwrap(),
        format!("{}\noptions nvidia NVreg_PreserveVideoMemoryAllocations=1 NVreg_TemporaryFilePath=/var/tmp", MODESET_CONTENT.trim_end())
    );

    let mut h3 = HostState::new(false);
    append_sleep_config(&sys, &mut h3, GraphicsMode::Integrated).unwrap();
    assert!(!helper::file_exists(&h3, MODPROBE_GPU_PATH));
}

#[test]
fn test_power_off_functions_order() {
    let fs = vec![
        PciFunction { name: "0000:01:00.0".to_string(), vendor: "0x10de\n".to_string() },
        PciFunction { name: "0000:01:00.3".to_string(), vendor: "0x10de\n".to_string() },
        PciFunction { name: "0000:00:02.0".to_string(), vendor: "0x8086\n".to_string() },
        PciFunction { name: "0000:01:00.1".to_string(), vendor: "0x10de\n".to_string() },
        PciFunction { name: "0000:01:00.2".to_string(), vendor: "0x1002\n".to_string() },
        PciFunction { name: "0000:02:00.0".to_string(), vendor: "0x10de\n".to_string() },
    ];
    assert_eq!(power_off_functions("0000:01:00.0", &fs), vec!["0000:01:00.3", "0000:01:00.1", "0000:01:00.0"]);
}

#[test]
fn test_power_helpers() {
    assert_eq!(power_control_value(GraphicsMode::Nvidia), "on\n");
    assert_eq!(power_control_value(GraphicsMode::Hybrid), "auto\n");
    assert!(!has_output_lines(""));
    assert!(!has_output_lines("  \n\n"));
    assert!(has_output_lines("\n1234, Xorg\n"));
    let host = HostState::new(false);
    let sys = sys_with(tools(), "");
    assert_eq!(helper::auto_power(&sys, &host), None);
    let mut hybrid = sys_with(tools(), "");
    hybrid.proc_modules = "nvidia 1 0\n".to_string();
    let mut h = HostState::new(false);
    h.load_file(PRIME_DISCRETE_PATH, "on-demand");
    assert_eq!(helper::auto_power(&hybrid, &h), Some(PowerAction::On));
}

#[test]
fn test_is_enabled_reply() {
    assert!(is_enabled_reply("enabled\n"));
    assert!(is_enabled_reply("static\n"));
    assert!(!is_enabled_reply("disabled\n"));
    assert!(!is_enabled_reply("masked\n"));
    assert!(!is_enabled_reply(""));
}

fn pairs(v: &[(&str, &str)]) -> Vec<(String, String)> {
    v.iter().map(|(a, b)| (a.to_string(), b.to_string())).collect()
}

#[test]
fn test_write_back_differences() {
    let before = pairs(&[("/a", "1"), ("/b", "2"), ("/c", "3")]);
    let after = pairs(&[("/b", "2"), ("/c", "33"), ("/d", "4")]);
    let mut writes = helper::files_to_write(&before, &after);
    writes.sort();
    assert_eq!(writes, pairs(&[("/c", "33"), ("/d", "4")]));
    assert_eq!(helper::files_to_remove(&before, &after), vec!["/a".to_string()]);
    let s_before = vec![("x.service".to_string(), true), ("y.service".to_string(), false)];
    let s_after = vec![("x.service".to_string(), true), ("y.service".to_string(), true), ("z.service".to_string(), false)];
    let mut updates = helper::services_to_apply(&s_before, &s_after);
    updates.sort();
    assert_eq!(updates, vec![("y.service".to_string(), true), ("z.service".to_string(), false)]);
    assert!(helper::files_to_write(&before, &before).is_empty());
    assert!(helper::files_to_remove(&before, &before).is_empty());
}

#[test]
fn test_same_cache_file() {
    let data = |device: u16| {
        CacheFile::Present(gswitch::cache::CacheData {
            version: 2,
            nvidia_gpu_pci_bus: "PCI:1:0:0".to_string(),
            nvidia_device_ids: vec![gswitch::cache::NvidiaDeviceId { vendor: 0x10de, device }],
        })
    };
    assert!(same_cache_file(&data(0x1f08), &data(0x1f08)));
    assert!(!same_cache_file(&data(0x1f08), &data(0x10f9)));
    assert!(same_cache_file(&CacheFile::Absent, &CacheFile::Absent));
    assert!(!same_cache_file(&CacheFile::Absent, &data(0x1f08)));
    assert!(!same_cache_file(&CacheFile::Unreadable("a".to_string()), &CacheFile::Unreadable("b".to_string())));
}

#[test]
fn test_cleanup_undoes_vfio_lines() {
    let mut t = tools();
    t.usr_sbin_update_initramfs = true;
    let mut host = HostState::new(false);
    host.load_file(INITRAMFS_TOOLS_MODULES_PATH, "lz4\n  raid1\n");
    add_vfio_to_initramfs(&sys_with(t, ""), &mut host).unwrap();
    assert_eq!(
        content(&host, INITRAMFS_TOOLS_MODULES_PATH).unwrap(),
        "lz4\n  raid1\n# Added by gswitch for VFIO passthrough\nvfio_pci\n"
    );
    cleanup(&mut host).unwrap();
    assert_eq!(content(&host, INITRAMFS_TOOLS_MODULES_PATH).unwrap(), "lz4\n  raid1\n");
}

#[test]
fn test_cleanup_keeps_final_carriage_return_of_last_line() {
    let mut host = HostState::new(false);
    host.load_file(INITRAMFS_TOOLS_MODULES_PATH, "lz4\r\nvfio_pci\nraid1\r");
    cleanup(&mut host).unwrap();
    assert_eq!(content(&host, INITRAMFS_TOOLS_MODULES_PATH).unwrap(), "lz4\nraid1\r\n");
}
