//! Where the configuration is kept and what loading it comes to.

use mbshark2::config::{
    config_path, failure_line, load, PersistedConfig, Places, Platform, ReadOutcome,
};

fn path(
    platform: Platform,
    xdg: Option<&str>,
    appdata: Option<&str>,
    home: Option<&str>,
) -> Option<String> {
    let places = Places {
        xdg_config_home: xdg.map(|s| s.to_string()),
        appdata: appdata.map(|s| s.to_string()),
        home: home.map(|s| s.to_string()),
    };
    config_path(platform, &places).map(|p| p.join("/"))
}

#[test]
fn path_on_each_platform() {
    assert_eq!(
        path(Platform::Other, Some("/x"), None, Some("/home/u")).unwrap(),
        "/x/mbshark2/config.toml"
    );
    assert_eq!(
        path(Platform::Other, None, Some("C:/A"), Some("/home/u")).unwrap(),
        "/home/u/.config/mbshark2/config.toml"
    );
    assert_eq!(
        path(Platform::Other, Some(""), None, Some("/home/u")).unwrap(),
        "/home/u/.config/mbshark2/config.toml"
    );
    assert_eq!(
        path(Platform::MacOs, None, None, Some("/Users/u")).unwrap(),
        "/Users/u/Library/Application Support/mbshark2/config.toml"
    );
    assert_eq!(
        path(Platform::MacOs, Some("/x"), None, Some("/Users/u")).unwrap(),
        "/x/mbshark2/config.toml"
    );
    assert_eq!(
        path(Platform::Windows, None, Some("C:/A"), None).unwrap(),
        "C:/A/mbshark2/config.toml"
    );
    assert_eq!(
        path(Platform::Windows, None, Some(""), Some("C:/U")).unwrap(),
        "C:/U/.config/mbshark2/config.toml"
    );
}

#[test]
fn no_variable_no_path() {
    assert_eq!(path(Platform::Other, None, Some("C:/A"), None), None);
    assert_eq!(path(Platform::MacOs, Some(""), None, Some("")), None);
    assert_eq!(path(Platform::Windows, None, None, None), None);
}

#[test]
fn loading_falls_back_to_defaults() {
    let first_run = load("/c", ReadOutcome::Missing);
    assert!(first_run.config.is_none() && first_run.log.is_none());
    let unreadable = load("/c", ReadOutcome::Unreadable("denied".into()));
    assert!(unreadable.config.is_none());
    assert_eq!(unreadable.log.unwrap(), "mbshark2: config load /c: denied");
    let corrupt = load("/c", ReadOutcome::Unparsable("line 1".into()));
    assert!(corrupt.config.is_none());
    assert_eq!(corrupt.log.unwrap(), "mbshark2: config parse /c: line 1");
    let cfg = PersistedConfig { timeout_ms: 400, show_slaves: vec![2, 3], ..Default::default() };
    let good = load("/c", ReadOutcome::Parsed(cfg.clone()));
    assert!(good.log.is_none());
    let back = good.config.unwrap();
    assert_eq!((back.timeout_ms, back.show_slaves), (400, vec![2, 3]));
    assert_eq!(failure_line("save", "/c", "full"), "mbshark2: config save /c: full");
}

#[test]
fn defaults() {
    let cfg = PersistedConfig::default();
    assert_eq!((cfg.port.as_str(), cfg.baud.as_str()), ("", "9600"));
    assert_eq!((cfg.parity.as_str(), cfg.flow_control.as_str()), ("None", "None"));
    assert_eq!((cfg.data_bits, cfg.stop_bits, cfg.timeout_ms), (8, 1, 500));
    assert!(cfg.auto_scroll);
    assert!(cfg.show_slaves.is_empty());
}
