//! The state of the application.

use std::collections::HashSet;

use mbshark2::app::{repaint, App, Repaint, MAX_ENTRIES};
use mbshark2::capture::engine::{CaptureEngine, Command, Event, Input, Phase};
use mbshark2::capture::serial::SerialConfig;
use mbshark2::config::PersistedConfig;
use mbshark2::protocol::pdu::{parse_pdu, Role};
use mbshark2::render::settings::SettingsAction;
use mbshark2::render::ui_view::Row;
use mbshark2::session::model::Entry;
use mbshark2::time::Timestamp;

fn ts() -> Timestamp {
    Timestamp::new(79_420, 775_000_000, 0).unwrap()
}

fn request(counter: u64, slave: u8) -> Event {
    let parsed = parse_pdu(Role::Unknown, 0x03, &[0x00, 0x00, 0x00, 0x0A]);
    Event::Entry(Entry::request(ts(), counter, vec![slave], slave, parsed))
}

#[test]
fn launch_without_anything() {
    let mut app = App::new(None, None, None);
    assert_eq!(app.settings.baud, "9600");
    assert_eq!(app.entry_count(), 0);
    assert!(!app.capturing());
    assert!(app.banner().is_none());
    assert!(app.take_autostart().is_none());
    assert!(app.take_autoexport(0).is_none());
}

#[test]
fn environment_over_configuration_over_defaults() {
    let cfg = PersistedConfig {
        port: "/dev/ttyS0".into(),
        baud: "19200".into(),
        show_slaves: vec![1, 2, 3],
        ..Default::default()
    };
    let mut app = App::new(Some(cfg.clone()), Some("/tmp/mb_a".into()), None);
    assert_eq!(app.settings.port, "/tmp/mb_a");
    assert_eq!(app.settings.baud, "19200");
    assert_eq!(app.settings.show_slaves_str, "1-3");
    let start = app.take_autostart().unwrap();
    assert_eq!((start.port.as_str(), start.baud), ("/tmp/mb_a", 19200));
    assert!(app.take_autostart().is_none());
    let mut plain = App::new(Some(cfg), Some("".into()), Some("".into()));
    assert_eq!(plain.settings.port, "/dev/ttyS0");
    assert!(plain.take_autostart().is_none());
    assert!(plain.take_autoexport(5).is_none());
}

#[test]
fn autostart_waits_for_a_port_and_for_the_end_of_a_capture() {
    let mut app = App::new(None, Some("/tmp/mb_a".into()), None);
    app.drain_events(vec![Event::Started]);
    assert!(app.take_autostart().is_none());
    app.drain_events(vec![Event::Stopped]);
    app.settings.port = "".into();
    assert!(app.take_autostart().is_none());
    app.settings.port = "/tmp/mb_b".into();
    assert_eq!(app.take_autostart().unwrap().port, "/tmp/mb_b");
}

#[test]
fn autoexport_once_a_second_and_unfiltered() {
    let mut app = App::new(None, None, Some("/tmp/out.txt".into()));
    app.settings.show_slaves_str = "9".into();
    app.drain_events(vec![request(1, 2)]);
    let (path, text) = app.take_autoexport(5_000).unwrap();
    assert_eq!(path, "/tmp/out.txt");
    assert!(text.starts_with("[REQUEST ]"));
    assert_eq!(text, app.export_text(None));
    assert!(app.take_autoexport(5_999).is_none());
    assert!(app.take_autoexport(4_000).is_none());
    assert!(app.take_autoexport(6_000).is_some());
    // The filter still holds for an export by hand.
    let nine: HashSet<u8> = [9u8].into_iter().collect();
    assert_eq!(app.export_text(Some(&nine)), "");
}

#[test]
fn events_are_taken_in() {
    let mut app = App::new(None, None, None);
    assert!(!app.drain_events(vec![]));
    assert!(!app.drain_events(vec![Event::Error("open x: y".into()), Event::Stopped]));
    assert_eq!(app.banner().unwrap(), "⚠ open x: y");
    assert!(app.drain_events(vec![Event::Started, request(1, 2), request(2, 3)]));
    assert!(app.banner().is_none());
    assert!(app.capturing());
    assert!(app.follows_end());
    app.settings.auto_scroll = false;
    assert!(!app.follows_end());
    assert_eq!(app.entry_count(), 2);
    assert_eq!(app.entry(1).counter, 2);
    assert_eq!(app.lines(1)[1].0[1].text, "3");
    assert_eq!(
        app.rows(),
        vec![Row { index: 0, separated: false }, Row { index: 1, separated: true }]
    );
    app.settings.show_slaves_str = "3".into();
    assert_eq!(app.rows(), vec![Row { index: 1, separated: false }]);
}

#[test]
fn filter_knows_the_slave_of_a_timeout() {
    let mut app = App::new(None, None, None);
    app.drain_events(vec![request(1, 2)]);
    app.drain_events(vec![Event::Entry(Entry::timeout(ts(), 1))]);
    app.settings.show_slaves_str = "2".into();
    assert_eq!(app.rows().len(), 2);
    app.settings.show_slaves_str = "3".into();
    assert_eq!(app.rows().len(), 0);
}

#[test]
fn only_the_newest_entries_stay() {
    let mut app = App::new(None, None, None);
    let mut events: Vec<Event> = Vec::new();
    for i in 0..(MAX_ENTRIES as u64 + 5) {
        events.push(Event::Entry(Entry::timeout(ts(), i)));
    }
    app.drain_events(events);
    assert_eq!(app.entry_count(), MAX_ENTRIES);
    assert_eq!(app.entry(0).counter, 5);
    assert_eq!(app.entry(MAX_ENTRIES - 1).counter, MAX_ENTRIES as u64 + 4);
    assert_eq!(app.lines(0)[0].0[1].text, "[22:03:40.775(      5)]");
}

#[test]
fn actions_of_the_panel() {
    let mut app = App::new(None, None, None);
    app.drain_events(vec![request(1, 2)]);
    assert!(app.act(SettingsAction::Nothing).is_none());
    assert_eq!(app.entry_count(), 1);
    app.settings.timeout_ms = 77;
    assert_eq!(app.act(SettingsAction::SaveConfig).unwrap().timeout_ms, 77);
    assert_eq!(app.entry_count(), 1);
    assert!(app.act(SettingsAction::Clear).is_none());
    assert_eq!(app.entry_count(), 0);
    assert!(app.rows().is_empty());
}

#[test]
fn repaint_cadence() {
    assert_eq!(repaint(true, false), Repaint::Now);
    assert_eq!(repaint(true, true), Repaint::Now);
    assert_eq!(repaint(false, true), Repaint::After(100));
    assert_eq!(repaint(false, false), Repaint::After(500));
}

#[test]
fn window_follows_the_engine() {
    let mut app = App::new(None, None, None);
    let mut engine = CaptureEngine::new(500);
    let cfg = SerialConfig { port: "p".into(), ..Default::default() };
    for input in [
        Input::Command(Some(Command::Start(cfg.clone()))),
        Input::Opened,
        Input::Read(vec![1, 2, 3], 0),
        Input::Gap,
        Input::Command(Some(Command::Start(cfg))),
        Input::Opened,
        Input::ReadFailed("gone".into()),
        Input::Command(Some(Command::Shutdown)),
    ] {
        let events = engine.step(input, ts());
        app.drain_events(events);
        assert_eq!(app.capturing(), matches!(engine.phase(), Phase::Capturing));
    }
}
