use gswitch::cache::{CacheData, GpuCache, NvidiaDeviceId, CACHE_VERSION};
use gswitch::error::GswitchError;
use gswitch::helper::{CacheFile, HostState};

#[test]
fn test_validate_pci_bus_valid() {
    assert!(GpuCache::validate_pci_bus("PCI:1:0:0"));
    assert!(GpuCache::validate_pci_bus("PCI:10:2:1"));
    assert!(GpuCache::validate_pci_bus("PCI:255:31:7"));
}

#[test]
fn test_validate_pci_bus_invalid_prefix() {
    assert!(!GpuCache::validate_pci_bus("pci:1:0:0"));
    assert!(!GpuCache::validate_pci_bus("AGP:1:0:0"));
    assert!(!GpuCache::validate_pci_bus(""));
}

#[test]
fn test_validate_pci_bus_invalid_format() {
    assert!(!GpuCache::validate_pci_bus("PCI:1:0"));
    assert!(!GpuCache::validate_pci_bus("PCI:1:0:0:0"));
    assert!(!GpuCache::validate_pci_bus("PCI:abc:0:0"));
}

#[test]
fn test_validate_pci_bus_out_of_range() {
    assert!(!GpuCache::validate_pci_bus("PCI:256:0:0"));
    assert!(!GpuCache::validate_pci_bus("PCI:1:32:0"));
    assert!(!GpuCache::validate_pci_bus("PCI:1:0:8"));
}

#[test]
fn test_validate_pci_bus_numeral_forms() {
    assert!(GpuCache::validate_pci_bus("PCI:+1:0:0"));
    assert!(GpuCache::validate_pci_bus("PCI:001:00:07"));
    assert!(!GpuCache::validate_pci_bus("PCI:-1:0:0"));
    assert!(!GpuCache::validate_pci_bus("PCI::0:0"));
    assert!(!GpuCache::validate_pci_bus("PCI:1:0: 0"));
    assert!(!GpuCache::validate_pci_bus("PCI:99999999999:0:0"));
}

#[test]
fn test_cache_data_new_has_current_version() {
    let d = CacheData::new("PCI:1:0:0".to_string(), vec![NvidiaDeviceId { vendor: 0x10de, device: 0x1f08 }]);
    assert_eq!(d.version, CACHE_VERSION);
    assert_eq!(d.version, 2);
    assert_eq!(d.nvidia_gpu_pci_bus, "PCI:1:0:0");
    assert_eq!(d.nvidia_device_ids.len(), 1);
}

#[test]
fn test_cache_write_read_delete() {
    let mut host = HostState::new(false);
    let data = CacheData::new("PCI:1:0:0".to_string(), vec![]);
    GpuCache::write(&mut host, &data).expect("write cache");

    let read = GpuCache::read(&host).expect("read cache");
    assert_eq!(read.nvidia_gpu_pci_bus, "PCI:1:0:0");

    GpuCache::delete(&mut host).expect("delete cache");
    let result = GpuCache::read(&host);
    assert!(result.is_err());
}

#[test]
fn test_cache_query_empty() {
    let host = HostState::new(false);
    let result = GpuCache::query(&host);
    assert_eq!(result.unwrap_err(), "无缓存数据");
}

#[test]
fn test_cache_version_mismatch() {
    let mut host = HostState::new(false);
    host.load_cache(CacheFile::Present(CacheData { version: 99, nvidia_gpu_pci_bus: "PCI:1:0:0".to_string(), nvidia_device_ids: vec![] }));
    match GpuCache::read(&host) {
        Err(GswitchError::Gpu(msg)) => assert!(msg.contains("版本不匹配"), "应报告版本错误: {}", msg),
        other => panic!("unexpected: {:?}", other),
    }
}

#[test]
fn test_cache_invalid_pci_format_rejected() {
    let mut host = HostState::new(false);
    host.load_cache(CacheFile::Present(CacheData { version: 2, nvidia_gpu_pci_bus: "PCI:999:0:0".to_string(), nvidia_device_ids: vec![] }));
    match GpuCache::read(&host) {
        Err(GswitchError::Gpu(msg)) => assert!(msg.contains("无效"), "应报告 PCI 格式无效: {}", msg),
        other => panic!("unexpected: {:?}", other),
    }
}

#[test]
fn test_cache_unreadable_reports_reason() {
    let mut host = HostState::new(false);
    host.load_cache(CacheFile::Unreadable("解析缓存失败: bad json".to_string()));
    match GpuCache::read(&host) {
        Err(GswitchError::Gpu(msg)) => assert_eq!(msg, "解析缓存失败: bad json"),
        other => panic!("unexpected: {:?}", other),
    }
    assert!(GpuCache::query(&host).is_err());
}

#[test]
fn test_cache_dry_run_changes_nothing() {
    let mut host = HostState::new(true);
    let data = CacheData::new("PCI:1:0:0".to_string(), vec![]);
    GpuCache::write(&mut host, &data).expect("write");
    assert!(GpuCache::read(&host).is_err());
}

#[test]
fn test_cache_check_messages() {
    let data = |v: u32, bus: &str| CacheData { version: v, nvidia_gpu_pci_bus: bus.to_string(), nvidia_device_ids: vec![] };
    match GpuCache::check(data(1, "PCI:1:0:0")) {
        Err(GswitchError::Gpu(m)) => assert_eq!(m, "缓存版本不匹配 (期望: 2, 实际: 1)"),
        other => panic!("unexpected: {:?}", other),
    }
    match GpuCache::check(data(2, "PCI:1:32:0")) {
        Err(GswitchError::Gpu(m)) => assert_eq!(m, "缓存中 PCI 总线格式无效: PCI:1:32:0"),
        other => panic!("unexpected: {:?}", other),
    }
    assert_eq!(GpuCache::check(data(2, "PCI:1:0:0")).unwrap().nvidia_gpu_pci_bus, "PCI:1:0:0");
    let host = HostState::new(false);
    match GpuCache::read(&host) {
        Err(GswitchError::Gpu(m)) => assert_eq!(m, "读取缓存失败: 缓存文件不存在"),
        other => panic!("unexpected: {:?}", other),
    }
}
