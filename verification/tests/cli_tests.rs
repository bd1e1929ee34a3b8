use gswitch::cli::{euid_is_root, id_output_is_root, Cli, Command, PowerActionArg};
use gswitch::graphics::{GraphicsMode, PowerAction};

#[test]
fn test_requires_root_by_command() {
    let c = |command, dry_run| Cli { dry_run, command };
    assert!(c(Command::Integrated, false).requires_root());
    assert!(!c(Command::Integrated, true).requires_root());
    assert!(c(Command::Hybrid { rtd3: Some(2) }, false).requires_root());
    assert!(!c(Command::Query, false).requires_root());
    assert!(!c(Command::Power { action: None }, false).requires_root());
    assert!(c(Command::Power { action: Some(PowerActionArg::Off) }, false).requires_root());
    assert!(!c(Command::CacheQuery, false).requires_root());
    assert!(c(Command::CacheDelete, false).requires_root());
}

#[test]
fn test_euid_from_status() {
    assert_eq!(euid_is_root("Name:\tgswitch\nUid:\t1000\t0\t0\t0\nGid:\t0\n"), Some(true));
    assert_eq!(euid_is_root("Uid:\t0\t1000\t1000\t1000\n"), Some(false));
    assert_eq!(euid_is_root("Uid:\t0\n"), None);
    assert_eq!(euid_is_root("Name: x\n"), None);
    assert!(id_output_is_root("0\n"));
    assert!(!id_output_is_root("1000\n"));
}

#[test]
fn test_switch_options_by_command() {
    let c = |command| Cli { dry_run: false, command };
    let o = c(Command::Hybrid { rtd3: Some(2) }).switch_options().unwrap();
    assert_eq!(o.mode, GraphicsMode::Hybrid);
    assert_eq!(o.nvidia_opts.rtd3, Some(2));
    let o = c(Command::Passthrough).switch_options().unwrap();
    assert_eq!(o.mode, GraphicsMode::Passthrough);
    assert_eq!(o.nvidia_opts.rtd3, None);
    assert_eq!(c(Command::Nvidia).switch_options().unwrap().mode, GraphicsMode::Nvidia);
    assert_eq!(c(Command::Integrated).switch_options().unwrap().mode, GraphicsMode::Integrated);
    assert!(c(Command::Query).switch_options().is_none());
    assert!(c(Command::Power { action: Some(PowerActionArg::On) }).switch_options().is_none());
}

#[test]
fn test_power_request_and_answers() {
    let c = |command| Cli { dry_run: false, command };
    assert_eq!(c(Command::Power { action: Some(PowerActionArg::Auto) }).power_request(), Some(PowerAction::Auto));
    assert_eq!(c(Command::Power { action: Some(PowerActionArg::Off) }).power_request(), Some(PowerAction::Off));
    assert_eq!(c(Command::Power { action: None }).power_request(), None);
    assert_eq!(c(Command::Switchable).answer_line(true), Some("可切换"));
    assert_eq!(c(Command::Switchable).answer_line(false), Some("不可切换"));
    assert_eq!(c(Command::Power { action: None }).answer_line(false), Some("关（独立显卡）"));
    assert_eq!(c(Command::ExtDisplay).answer_line(true), Some("需要独立显卡"));
    assert_eq!(c(Command::RuntimePm).answer_line(false), Some("不支持"));
    assert_eq!(c(Command::Reset).answer_line(true), None);
}
