use gswitch::error::GswitchError;
use gswitch::graphics::{generate_modeset_content, parse_pci_id, GraphicsMode};
use std::str::FromStr;

#[test]
fn test_graphics_mode_as_str() {
    assert_eq!(GraphicsMode::Integrated.as_str(), "integrated");
    assert_eq!(GraphicsMode::Passthrough.as_str(), "passthrough");
    assert_eq!(GraphicsMode::Hybrid.as_str(), "hybrid");
    assert_eq!(GraphicsMode::Nvidia.as_str(), "nvidia");
}

#[test]
fn test_graphics_mode_from_str_valid() {
    assert_eq!(GraphicsMode::from_str("integrated").unwrap(), GraphicsMode::Integrated);
    assert_eq!(GraphicsMode::from_str("passthrough").unwrap(), GraphicsMode::Passthrough);
    assert_eq!(GraphicsMode::from_str("hybrid").unwrap(), GraphicsMode::Hybrid);
    assert_eq!(GraphicsMode::from_str("nvidia").unwrap(), GraphicsMode::Nvidia);
}

#[test]
fn test_graphics_mode_from_str_invalid() {
    assert!(GraphicsMode::from_str("invalid").is_err());
    assert!(GraphicsMode::from_str("").is_err());
    assert!(GraphicsMode::from_str("INTEGRATED").is_err());
}

#[test]
fn test_graphics_mode_parse_trait_round_trip() {
    for m in [GraphicsMode::Integrated, GraphicsMode::Passthrough, GraphicsMode::Hybrid, GraphicsMode::Nvidia] {
        let parsed: GraphicsMode = m.as_str().parse().unwrap();
        assert_eq!(parsed, m);
    }
}

#[test]
fn test_graphics_mode_from_str_error_is_input() {
    match GraphicsMode::from_str("turbo") {
        Err(gswitch::error::GswitchError::Input(msg)) => assert!(msg.contains("turbo")),
        other => panic!("unexpected: {:?}", other),
    }
}

#[test]
fn test_parse_pci_id_valid() {
    assert_eq!(parse_pci_id("0000:01:00.0").unwrap(), "PCI:1:0:0");
    assert_eq!(parse_pci_id("0000:02:01.0").unwrap(), "PCI:2:1:0");
    assert_eq!(parse_pci_id("0000:ff:1f.7").unwrap(), "PCI:255:31:7");
    assert_eq!(parse_pci_id("0000:0a:0b.1").unwrap(), "PCI:10:11:1");
}

#[test]
fn test_parse_pci_id_no_domain() {
    assert_eq!(parse_pci_id("01:00.0").unwrap(), "PCI:1:0:0");
}

#[test]
fn test_parse_pci_id_invalid_format() {
    assert!(parse_pci_id("not-a-pci-id").is_err());
    assert!(parse_pci_id("0000:01:00").is_err());
    assert!(parse_pci_id("0000:01:00.0.0").is_err());
    assert!(parse_pci_id("").is_err());
}

#[test]
fn test_parse_pci_id_invalid_hex() {
    assert!(parse_pci_id("0000:gg:00.0").is_err());
    assert!(parse_pci_id("0000:01:xx.0").is_err());
    assert!(parse_pci_id("0000:01:00.z").is_err());
}

#[test]
fn test_parse_pci_id_upper_case_and_plus_sign() {
    assert_eq!(parse_pci_id("0000:FF:1F.7").unwrap(), "PCI:255:31:7");
    assert_eq!(parse_pci_id("+1:+0.+0").unwrap(), "PCI:1:0:0");
    assert!(parse_pci_id("0000:-1:00.0").is_err());
    assert!(parse_pci_id("0000::00.0").is_err());
    assert!(parse_pci_id("0000:100000000:00.0").is_err());
}

#[test]
fn test_parse_pci_id_large_bus_is_not_cache_valid() {
    let bus = parse_pci_id("0000:100:00.0").unwrap();
    assert_eq!(bus, "PCI:256:0:0");
    assert!(!gswitch::cache::GpuCache::validate_pci_bus(&bus));
    let ok = parse_pci_id("0000:3c:1f.7").unwrap();
    assert!(gswitch::cache::GpuCache::validate_pci_bus(&ok));
}

#[test]
fn test_generate_modeset_content_default() {
    let content = generate_modeset_content(None);
    assert!(content.contains("options nvidia-drm modeset=1"));
    assert!(content.contains("NVreg_UsePageAttributeTable=1"));
    assert!(!content.contains("NVreg_DynamicPowerManagement"));
}

#[test]
fn test_generate_modeset_content_rtd3() {
    let content = generate_modeset_content(Some(0));
    assert!(content.contains("NVreg_DynamicPowerManagement=0x00"));

    let content = generate_modeset_content(Some(2));
    assert!(content.contains("NVreg_DynamicPowerManagement=0x02"));

    let content = generate_modeset_content(Some(5));
    assert!(content.contains("NVreg_DynamicPowerManagement=0x03"));
}

#[test]
fn test_generate_modeset_content_exact_text() {
    assert_eq!(
        generate_modeset_content(Some(1)),
        "# Automatically generated by gswitch\noptions nvidia-drm modeset=1\noptions nvidia \"NVreg_DynamicPowerManagement=0x01\"\noptions nvidia NVreg_UsePageAttributeTable=1 NVreg_InitializeSystemMemoryAllocations=0\n"
    );
    assert_eq!(generate_modeset_content(None), gswitch::config::MODESET_CONTENT);
    assert_eq!(generate_modeset_content(Some(u32::MAX)), generate_modeset_content(Some(3)));
}

#[test]
fn test_parse_pci_id_error_messages() {
    let msg = |raw: &str| match parse_pci_id(raw) {
        Err(GswitchError::Gpu(m)) => m,
        other => panic!("unexpected: {:?}", other),
    };
    assert_eq!(msg("not-a-pci-id"), "PCI ID 'not-a-pci-id' 段数异常（期望 2 或 3 段，实际 1 段）");
    assert_eq!(msg("0000:01:00"), "期望 PCI 设备.功能号格式，实际为 '00' (原始: '0000:01:00')");
    assert_eq!(msg("0000:gg:00.0"), "PCI ID '0000:gg:00.0' 中总线号 'gg' 不是有效的十六进制数");
    assert_eq!(msg("0000:01:xx.0"), "PCI ID '0000:01:xx.0' 中设备号 'xx' 不是有效的十六进制数");
    assert_eq!(msg("0000:01:00.z"), "PCI ID '0000:01:00.z' 中功能号 'z' 不是有效的十六进制数");
}

#[test]
fn test_graphics_mode_from_str_message() {
    match GraphicsMode::from_str("INTEGRATED") {
        Err(GswitchError::Input(m)) => assert_eq!(m, "不支持的模式: INTEGRATED"),
        other => panic!("unexpected: {:?}", other),
    }
}
