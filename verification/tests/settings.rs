//! The settings panel.

use std::collections::HashSet;

use mbshark2::capture::engine::Command;
use mbshark2::capture::serial::{DataBits, FlowControl, Parity, SerialConfig, StopBits};
use mbshark2::config::PersistedConfig;
use mbshark2::render::settings::{
    baud_choices, config_label, data_bits_choices, entries_label, flow_control_choices,
    parity_choices, stop_bits_choices, Button, Effect, SettingsAction, SettingsState, StartButton,
    TIMEOUT_MAX, TIMEOUT_MIN,
};

#[test]
fn show_set_none_when_blank() {
    let s = SettingsState {
        show_slaves_str: "".into(),
        ..Default::default()
    };
    assert!(s.show_set().is_none());
}

#[test]
fn show_set_none_when_star() {
    let s = SettingsState {
        show_slaves_str: "*".into(),
        ..Default::default()
    };
    assert!(s.show_set().is_none());
}

#[test]
fn show_set_parses_loose_input() {
    let s = SettingsState {
        show_slaves_str: "2, 3 ,abc,3,300,".into(),
        ..Default::default()
    };
    let set = s.show_set().unwrap();
    assert_eq!(set, [2, 3].into_iter().collect::<HashSet<_>>());
}

#[test]
fn show_set_none_when_all_garbage() {
    let s = SettingsState {
        show_slaves_str: "abc,xyz,,".into(),
        ..Default::default()
    };
    // All tokens invalid -> returns None (show all) as fallback.
    assert!(s.show_set().is_none());
}

#[test]
fn show_set_parses_range() {
    let s = SettingsState {
        show_slaves_str: "1-3".into(),
        ..Default::default()
    };
    assert_eq!(
        s.show_set().unwrap(),
        [1, 2, 3].into_iter().collect::<HashSet<_>>()
    );
}

#[test]
fn show_set_parses_inverted_range() {
    let s = SettingsState {
        show_slaves_str: "5-2".into(),
        ..Default::default()
    };
    assert_eq!(
        s.show_set().unwrap(),
        [2, 3, 4, 5].into_iter().collect::<HashSet<_>>()
    );
}

#[test]
fn show_set_parses_combined() {
    let s = SettingsState {
        show_slaves_str: "1-3,5,7-9".into(),
        ..Default::default()
    };
    assert_eq!(
        s.show_set().unwrap(),
        [1, 2, 3, 5, 7, 8, 9].into_iter().collect::<HashSet<_>>()
    );
}

#[test]
fn show_set_parses_overlapping_ranges() {
    let s = SettingsState {
        show_slaves_str: "1-5,3-7".into(),
        ..Default::default()
    };
    assert_eq!(
        s.show_set().unwrap(),
        [1, 2, 3, 4, 5, 6, 7].into_iter().collect::<HashSet<_>>()
    );
}

#[test]
fn canonicalize_slaves_compact_ranges() {
    assert_eq!(
        SettingsState::canonicalize_slaves(&[1, 2, 3, 5, 7, 8, 9]),
        "1-3,5,7-9"
    );
}

#[test]
fn canonicalize_slaves_single_values() {
    assert_eq!(
        SettingsState::canonicalize_slaves(&[2, 5, 9]),
        "2,5,9"
    );
}

#[test]
fn canonicalize_slaves_empty() {
    assert_eq!(SettingsState::canonicalize_slaves(&[]), "");
}

#[test]
fn canonicalize_slaves_single() {
    assert_eq!(SettingsState::canonicalize_slaves(&[42]), "42");
}

#[test]
fn canonicalize_slaves_edge_overflow_safe() {
    assert_eq!(
        SettingsState::canonicalize_slaves(&[253, 254, 255]),
        "253-255"
    );
}

#[test]
fn persisted_roundtrip_preserves_show_slaves() {
    let s = SettingsState {
        show_slaves_str: "3,2".into(),
        baud: "115200".into(),
        timeout_ms: 400,
        ..Default::default()
    };
    let cfg = s.to_persisted();
    assert_eq!(cfg.show_slaves, vec![2, 3]);
    assert_eq!(cfg.baud, "115200");

    let mut s2 = SettingsState::default();
    s2.apply_persisted(&cfg);
    assert_eq!(
        s2.show_set().unwrap(),
        [2, 3].into_iter().collect::<HashSet<_>>()
    );
    assert_eq!(s2.baud, "115200");
    assert_eq!(s2.timeout_ms, 400);
}

#[test]
fn persisted_roundtrip_preserves_range_compact() {
    let s = SettingsState {
        show_slaves_str: "1-5".into(),
        ..Default::default()
    };
    let cfg = s.to_persisted();
    assert_eq!(cfg.show_slaves, vec![1, 2, 3, 4, 5]);

    let mut s2 = SettingsState::default();
    s2.apply_persisted(&cfg);
    assert_eq!(s2.show_slaves_str, "1-5");
}

// --- further cases -------------------------------------------------------------

fn filter(text: &str) -> Option<HashSet<u8>> {
    SettingsState { show_slaves_str: text.into(), ..Default::default() }.show_set()
}

fn ids(list: &[u8]) -> Option<HashSet<u8>> {
    Some(list.iter().copied().collect())
}

#[test]
fn filter_edge_cases() {
    assert_eq!(filter("  *  "), None);
    assert_eq!(filter(" \t "), None);
    assert_eq!(filter(" 1 - 3 "), ids(&[1, 2, 3]));
    assert_eq!(filter("+7"), ids(&[7]));
    assert_eq!(filter("007"), ids(&[7]));
    assert_eq!(filter("255,256"), ids(&[255]));
    assert_eq!(filter("254-255"), ids(&[254, 255]));
    assert_eq!(filter("0"), ids(&[0]));
    // One dash too many, half a range, a sign alone.
    assert_eq!(filter("1-2-3,9"), ids(&[9]));
    assert_eq!(filter("-5,5-,9"), ids(&[9]));
    assert_eq!(filter("+,9"), ids(&[9]));
    assert_eq!(filter("*,9"), ids(&[9]));
    assert_eq!(filter("1-300"), None);
}

#[test]
fn canonical_text_reads_back() {
    let all: Vec<u8> = (0..=255).collect();
    for list in [vec![0], vec![0, 1, 255], vec![1, 3, 4, 5, 9, 10], vec![2, 2, 3], all] {
        let text = SettingsState::canonicalize_slaves(&list);
        assert_eq!(filter(&text), ids(&list));
    }
    assert_eq!(SettingsState::canonicalize_slaves(&[2, 2, 3]), "2,2-3");
}

#[test]
fn built_config_follows_the_choices() {
    let s = SettingsState {
        port: "/dev/ttyUSB0".into(),
        baud: "115200".into(),
        data_bits: 7,
        parity: "Even".into(),
        stop_bits: 2,
        flow_control: "Hardware".into(),
        timeout_ms: 400,
        ..Default::default()
    };
    let cfg = s.build_config();
    assert_eq!(cfg.port, "/dev/ttyUSB0");
    assert_eq!(cfg.baud, 115200);
    assert_eq!(cfg.data_bits, DataBits::Seven);
    assert_eq!(cfg.parity, Parity::Even);
    assert_eq!(cfg.stop_bits, StopBits::Two);
    assert_eq!(cfg.flow_control, FlowControl::Hardware);
    assert_eq!(cfg.response_timeout, 400);
}

#[test]
fn built_config_falls_back() {
    let s = SettingsState {
        baud: "fast".into(),
        data_bits: 9,
        parity: "even".into(),
        stop_bits: 3,
        flow_control: "".into(),
        timeout_ms: 3,
        ..Default::default()
    };
    let cfg = s.build_config();
    assert_eq!(cfg.baud, 9600);
    assert_eq!(cfg.data_bits, DataBits::Eight);
    assert_eq!(cfg.parity, Parity::NoParity);
    assert_eq!(cfg.stop_bits, StopBits::One);
    assert_eq!(cfg.flow_control, FlowControl::NoFlowControl);
    assert_eq!(cfg.response_timeout, TIMEOUT_MIN);
    assert_eq!(TIMEOUT_MAX, 60_000);
    let more = SettingsState {
        baud: "4294967296".into(),
        data_bits: 5,
        parity: "Odd".into(),
        flow_control: "Software".into(),
        ..Default::default()
    };
    assert_eq!(more.build_config().baud, 9600);
    assert_eq!(more.build_config().data_bits, DataBits::Five);
    assert_eq!(more.build_config().parity, Parity::Odd);
    assert_eq!(more.build_config().flow_control, FlowControl::Software);
}

#[test]
fn default_serial_config() {
    let cfg = SerialConfig::default();
    assert_eq!(cfg.port, "");
    assert_eq!((cfg.baud, cfg.response_timeout), (9600, 500));
    assert_eq!((cfg.data_bits, cfg.parity), (DataBits::Eight, Parity::NoParity));
    assert_eq!((cfg.stop_bits, cfg.flow_control), (StopBits::One, FlowControl::NoFlowControl));
    // The default settings build the same.
    let built = SettingsState::default().build_config().clone();
    assert_eq!((built.baud, built.response_timeout), (9600, 500));
}

#[test]
fn offered_choices() {
    assert_eq!(baud_choices(), ["9600", "19200", "38400", "57600", "115200", "230400"]);
    assert_eq!(data_bits_choices(), [5, 6, 7, 8]);
    assert_eq!(parity_choices(), ["None", "Even", "Odd"]);
    assert_eq!(stop_bits_choices(), [1, 2]);
    assert_eq!(flow_control_choices(), ["None", "Software", "Hardware"]);
    for choice in baud_choices() {
        let s = SettingsState { baud: choice.into(), ..Default::default() };
        assert_eq!(s.build_config().baud.to_string(), choice);
    }
}

#[test]
fn start_needs_a_port() {
    let mut s = SettingsState::default();
    assert_eq!(s.port_label(), "<select>");
    assert_eq!(s.start_button(false), StartButton::Disabled);
    assert!(matches!(s.press(Button::StartStop, false), Effect::Nothing));
    s.port = "COM3".into();
    assert_eq!(s.port_label(), "COM3");
    assert_eq!(s.start_button(false), StartButton::Start);
    match s.press(Button::StartStop, false) {
        Effect::Send(Command::Start(cfg)) => assert_eq!(cfg.port, "COM3"),
        other => panic!("expected a start, got {:?}", other),
    }
    assert_eq!(s.start_button(true), StartButton::Stop);
    assert!(matches!(s.press(Button::StartStop, true), Effect::Send(Command::Stop)));
}

#[test]
fn other_buttons() {
    let s = SettingsState { show_slaves_str: "4".into(), ..Default::default() };
    assert!(matches!(s.press(Button::Clear, true), Effect::Act(SettingsAction::Clear)));
    assert!(matches!(s.press(Button::SaveConfig, false), Effect::Act(SettingsAction::SaveConfig)));
    match s.press(Button::Export, false) {
        Effect::Export(set) => assert_eq!(set, ids(&[4])),
        other => panic!("expected an export, got {:?}", other),
    }
    assert_eq!(SettingsAction::default(), SettingsAction::Nothing);
    assert_eq!(entries_label(10), "Entries: 10");
    assert_eq!(config_label("/tmp/c"), "Config: /tmp/c");
}

#[test]
fn refreshed_ports_replace_the_old_ones() {
    let mut s = SettingsState::default();
    s.refresh_ports(vec!["a".into(), "b".into()]);
    s.refresh_ports(vec!["c".into()]);
    assert_eq!(s.ports_cache, vec!["c".to_string()]);
    assert_eq!(s.clone().ports_cache, s.ports_cache);
}

#[test]
fn default_config_gives_default_settings() {
    let mut s = SettingsState { port: "x".into(), ..Default::default() };
    s.apply_persisted(&PersistedConfig::default());
    assert_eq!(s.port, "");
    assert_eq!(s.baud, "9600");
    assert_eq!((s.data_bits, s.stop_bits, s.timeout_ms), (8, 1, 500));
    assert_eq!((s.parity.as_str(), s.flow_control.as_str()), ("None", "None"));
    assert!(s.auto_scroll);
    assert_eq!(s.show_slaves_str, "");
}
