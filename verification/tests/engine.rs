//! The capture engine.

use std::collections::{HashSet, VecDeque};

use mbshark2::capture::engine::{CaptureEngine, Command, Event, Input, Phase, SWEEP_INTERVAL};
use mbshark2::capture::serial::SerialConfig;
use mbshark2::protocol::crc::append_crc;
use mbshark2::protocol::pdu::{has_two_readings, ParsedPdu, PduDetails, Role};
use mbshark2::render::format::{counter_slave_map, should_show};
use mbshark2::session::model::{Entry, EntryBody, Tag};
use mbshark2::time::Timestamp;

fn at(millis: i64) -> Timestamp {
    Timestamp::new(millis / 1000, (millis % 1000) as u32 * 1_000_000, 0).unwrap()
}

/// Build a raw RTU frame (slave + fc + data + CRC).
fn frame(slave: u8, fc: u8, data: &[u8]) -> Vec<u8> {
    let mut v = vec![slave, fc];
    v.extend_from_slice(data);
    append_crc(&mut v);
    v
}

fn build_cfg(port: &str, timeout_ms: u64) -> SerialConfig {
    SerialConfig {
        port: port.into(),
        baud: 9600,
        response_timeout: timeout_ms,
        ..Default::default()
    }
}

fn started(timeout_ms: u64) -> CaptureEngine {
    let mut e = CaptureEngine::new(500);
    let cfg = build_cfg("/tmp/mb_a", timeout_ms);
    let out = e.step(Input::Command(Some(Command::Start(cfg))), at(0));
    assert!(out.is_empty());
    assert!(matches!(e.phase(), Phase::Opening(_)));
    let out = e.step(Input::Opened, at(0));
    assert_eq!(out.len(), 1);
    assert!(matches!(out[0], Event::Started));
    assert!(matches!(e.phase(), Phase::Capturing));
    e
}

fn entries(events: Vec<Event>) -> Vec<Entry> {
    events
        .into_iter()
        .map(|e| match e {
            Event::Entry(entry) => entry,
            other => panic!("expected an entry, got {:?}", other),
        })
        .collect()
}

const WRITE: [u8; 9] = [0x00, 0x00, 0x00, 0x02, 0x04, 0x00, 0x00, 0x00, 0x01];
const WRITTEN: [u8; 4] = [0x00, 0x00, 0x00, 0x02];

#[test]
fn pair_from_the_wire() {
    let mut e = started(300);
    let req = frame(2, 0x10, &WRITE);
    let out = entries(e.step(Input::Read(req.clone(), 10), at(1)));
    assert_eq!(out.len(), 1);
    assert_eq!((out[0].tag, out[0].counter), (Tag::Request, 1));
    assert_eq!(out[0].raw, req);
    assert!(matches!(out[0].body, EntryBody::Frame { slave: 2, .. }));
    let resp = frame(2, 0x10, &WRITTEN);
    let out = entries(e.step(Input::Read(resp.clone(), 70), at(60)));
    assert_eq!((out[0].tag, out[0].counter), (Tag::Response, 1));
    assert_eq!(out[0].raw, resp);
}

/// What an exchange is shown as: the request and its response, which pair.
fn exchange(fc: u8, asked: &[u8], answered: &[u8]) -> (ParsedPdu, ParsedPdu) {
    let mut e = started(300);
    let shown = [(asked, Tag::Request), (answered, Tag::Response)].map(|(data, tag)| {
        let mut out = entries(e.step(Input::Read(frame(2, fc, data), 0), at(1)));
        assert_eq!(out.len(), 1);
        assert_eq!((out[0].tag, out[0].counter), (tag, 1));
        match out.remove(0).body {
            EntryBody::Frame { slave: 2, parsed } => parsed,
            other => panic!("wrong body {:?}", other),
        }
    });
    let [request, response] = shown;
    (request, response)
}

#[test]
fn echoes_pair_and_are_read_without_a_role() {
    let (request, response) = exchange(0x06, &[0, 7, 0x12, 0x34], &[0, 7, 0x12, 0x34]);
    assert_eq!(request.role, Role::Unknown);
    assert_eq!(request.details, PduDetails::WriteSingleRegResp { addr: 7, value: 0x1234 });
    assert_eq!(response, request);
    let (request, response) = exchange(0x05, &[0, 7, 0xFF, 0], &[0, 7, 0xFF, 0]);
    assert_eq!(request.role, Role::Unknown);
    assert_eq!(request.details, PduDetails::WriteSingleCoilResp { addr: 7, on: true });
    assert_eq!(response, request);
}

#[test]
fn two_readings_are_settled_by_what_is_pending() {
    // Twenty coils come in three bytes, which could be a request too.
    let (request, response) = exchange(0x01, &[0, 0, 0, 20], &[3, 0, 0, 1]);
    assert_eq!(request.details, PduDetails::ReadCoilsReq { start: 0, count: 20 });
    assert_eq!((request.role, response.role), (Role::Request, Role::Response));
    match response.details {
        PduDetails::ReadCoilsResp { bits } => {
            assert_eq!(bits.len(), 24);
            assert_eq!(bits.iter().position(|&b| b), Some(16));
        }
        other => panic!("wrong details {:?}", other),
    }
    // So could a request for bits from address 0x0300 on.
    let (request, response) = exchange(0x02, &[3, 0, 0, 1], &[1, 1]);
    assert_eq!(request.details, PduDetails::ReadCoilsReq { start: 0x0300, count: 1 });
    assert_eq!((request.role, response.role), (Role::Request, Role::Response));
    assert!(has_two_readings(0x02, &[3, 0, 0, 1]));
    assert!(has_two_readings(0x17, &[8, 0, 1, 0, 2, 0, 0, 0, 0]));
    assert!(!has_two_readings(0x01, &[0, 0, 0, 20]));
    assert!(!has_two_readings(0x06, &[0, 7, 0x12, 0x34]));
}

#[test]
fn four_registers_answer_a_read_write() {
    let (request, response) = exchange(
        0x17,
        &[0, 1, 0, 4, 0, 3, 0, 1, 2, 0, 7],
        &[8, 0, 1, 0, 2, 0, 3, 0, 4],
    );
    assert!(matches!(request.details, PduDetails::ReadWriteMultipleRegsReq { .. }));
    assert_eq!(
        response.details,
        PduDetails::ReadWriteMultipleRegsResp { read_values: vec![1, 2, 3, 4] }
    );
}

#[test]
fn timeout_and_orphan_from_the_wire() {
    let mut e = started(200);
    e.step(Input::Read(frame(2, 0x10, &WRITE), 0), at(0));
    assert!(e.step(Input::Tick, at(SWEEP_INTERVAL as i64)).is_empty());
    let out = entries(e.step(Input::Tick, at(201)));
    assert_eq!((out[0].tag, out[0].counter), (Tag::Response, 1));
    assert!(matches!(out[0].body, EntryBody::Timeout));
    assert!(out[0].raw.is_empty());
    let resp = frame(2, 0x10, &WRITTEN);
    let out = entries(e.step(Input::Read(resp.clone(), 0), at(300)));
    assert_eq!((out[0].tag, out[0].counter), (Tag::Orphan, 1));
    assert_eq!(out[0].raw, resp);
    assert!(matches!(out[0].body, EntryBody::Orphan { slave: 2, .. }));
}

#[test]
fn captured_sessions_are_filtered_as_a_whole() {
    let mut e = started(200);
    let mut seen: VecDeque<Entry> = VecDeque::new();
    // Slave 2 answers; 3 is passed over for 4; 4 times out and answers late.
    for (slave, data, millis) in [
        (2, &WRITE[..], 0),
        (2, &WRITTEN[..], 10),
        (3, &WRITE[..], 20),
        (4, &WRITE[..], 30),
    ] {
        seen.extend(entries(e.step(Input::Read(frame(slave, 0x10, data), 0), at(millis))));
    }
    seen.extend(entries(e.step(Input::Tick, at(300))));
    seen.extend(entries(e.step(Input::Read(frame(4, 0x10, &WRITTEN), 0), at(310))));
    let sessions: Vec<(Tag, u64)> = seen.iter().map(|x| (x.tag, x.counter)).collect();
    assert_eq!(
        sessions,
        vec![
            (Tag::Request, 1),
            (Tag::Response, 1),
            (Tag::Request, 2),
            (Tag::Response, 2),
            (Tag::Request, 3),
            (Tag::Response, 3),
            (Tag::Orphan, 3),
        ]
    );
    let map = counter_slave_map(&seen);
    for slave in 2u8..=4 {
        let set: HashSet<u8> = [slave].into_iter().collect();
        for x in &seen {
            assert_eq!(should_show(x, &map, Some(&set)), x.counter == slave as u64 - 1);
        }
    }
}

#[test]
fn coalesced_frames_are_split_at_once() {
    let mut e = started(300);
    let mut both = frame(2, 0x10, &WRITE);
    both.extend(frame(2, 0x10, &WRITTEN));
    let out = entries(e.step(Input::Read(both, 5), at(1)));
    let tags: Vec<Tag> = out.iter().map(|x| x.tag).collect();
    assert_eq!(tags, vec![Tag::Request, Tag::Response]);
    assert_eq!(e.gap_deadline(), None);
}

#[test]
fn gap_ends_a_frame() {
    let mut e = started(300);
    // Diagnostics carry no length: only the gap ends them.
    let diag = frame(1, 0x08, &[0x00, 0x00]);
    assert!(e.step(Input::Read(diag.clone(), 1000), at(1)).is_empty());
    assert_eq!(e.buffered(), diag.len());
    assert_eq!(e.gap_deadline(), Some(1000 + 4010));
    let out = entries(e.step(Input::Gap, at(6)));
    assert_eq!(out[0].raw, diag);
    assert_eq!(out[0].tag, Tag::Request);
    assert!(e.step(Input::Gap, at(7)).is_empty());
    assert_eq!(e.buffered(), 0);
}

#[test]
fn bytes_that_are_no_frame_are_shown_with_the_reason() {
    let mut e = started(300);
    e.step(Input::Read(vec![0x01, 0x03, 0x00], 0), at(1));
    let left = e.counters_left();
    let out = entries(e.step(Input::Gap, at(6)));
    assert_eq!(out[0].tag, Tag::Parse);
    assert_eq!(out[0].counter, 1);
    assert_eq!(out[0].raw, vec![0x01, 0x03, 0x00]);
    match &out[0].body {
        EntryBody::ParseFailure { reason } => {
            assert_eq!(reason, "Truncated frame (3 bytes, need ≥4)")
        }
        other => panic!("wrong body {:?}", other),
    }
    assert_eq!(e.counters_left(), left - 1);
    let mut bad = frame(1, 0x03, &[0, 0, 0, 1]);
    bad[2] = 0x77;
    e.step(Input::Read(bad.clone(), 0), at(10));
    let out = entries(e.step(Input::Gap, at(20)));
    assert_eq!(out[0].raw, bad);
    assert_eq!(out[0].counter, 2);
}

#[test]
fn too_many_bytes_force_a_flush() {
    let mut e = started(300);
    let noise = vec![0x55u8; 300];
    let out = entries(e.step(Input::Read(noise.clone(), 0), at(1)));
    assert_eq!(out.len(), 1);
    assert_eq!(out[0].tag, Tag::Parse);
    assert_eq!(out[0].raw, noise);
    assert_eq!(e.buffered(), 0);
    // At the limit the bytes still wait.
    assert!(e.step(Input::Read(vec![0x55; 260], 0), at(2)).is_empty());
    assert_eq!(e.buffered(), 260);
}

#[test]
fn no_byte_is_lost() {
    let mut stream = vec![0x0E, 0x55];
    stream.extend(frame(2, 0x10, &WRITE));
    stream.extend(frame(3, 0x03, &[0, 0, 0, 1]));
    stream.extend([0x01, 0x18, 0xFF]);
    for step in 1..stream.len() {
        let mut e = started(300);
        let mut shown: Vec<u8> = Vec::new();
        for (i, part) in stream.chunks(step).enumerate() {
            for x in entries(e.step(Input::Read(part.to_vec(), i as u64), at(i as i64))) {
                shown.extend(x.raw);
            }
            for x in entries(e.step(Input::Tick, at(i as i64))) {
                assert!(x.raw.is_empty());
            }
        }
        for x in entries(e.step(Input::Gap, at(400))) {
            shown.extend(x.raw);
        }
        assert_eq!(shown, stream);
    }
}

#[test]
fn failed_open_is_reported() {
    let mut e = CaptureEngine::new(500);
    e.step(Input::Command(Some(Command::Start(build_cfg("/dev/none", 300)))), at(0));
    let out = e.step(Input::OpenFailed("no such port".into()), at(0));
    assert_eq!(out.len(), 2);
    match &out[0] {
        Event::Error(msg) => assert_eq!(msg, "open /dev/none: no such port"),
        other => panic!("expected an error, got {:?}", other),
    }
    assert!(matches!(out[1], Event::Stopped));
    assert!(matches!(e.phase(), Phase::Idle));
}

#[test]
fn captures_end() {
    for input in [
        Input::Command(Some(Command::Stop)),
        Input::Command(None),
        Input::Read(vec![], 0),
    ] {
        let mut e = started(300);
        e.step(Input::Read(vec![1, 2, 3], 0), at(0));
        let out = e.step(input, at(1));
        assert_eq!(out.len(), 1);
        assert!(matches!(out[0], Event::Stopped));
        assert!(matches!(e.phase(), Phase::Idle));
        assert_eq!(e.buffered(), 0);
    }
    let mut e = started(300);
    let out = e.step(Input::ReadFailed("gone".into()), at(1));
    match &out[0] {
        Event::Error(msg) => assert_eq!(msg, "read: gone"),
        other => panic!("expected an error, got {:?}", other),
    }
    assert!(matches!(out[1], Event::Stopped));
    assert!(matches!(e.phase(), Phase::Idle));
}

#[test]
fn restart_is_clean() {
    let mut e = started(300);
    e.step(Input::Read(frame(2, 0x10, &WRITE), 0), at(0));
    e.step(Input::Read(vec![1, 2, 3], 0), at(0));
    let out = e.step(Input::Command(Some(Command::Start(build_cfg("/tmp/mb_b", 100)))), at(1));
    assert!(matches!(out[0], Event::Stopped));
    match e.phase() {
        Phase::Opening(cfg) => assert_eq!(cfg.port, "/tmp/mb_b"),
        other => panic!("expected to open, got {:?}", other),
    }
    e.step(Input::Opened, at(2));
    assert_eq!(e.buffered(), 0);
    assert!(e.step(Input::Tick, at(5000)).is_empty());
    let out = entries(e.step(Input::Read(frame(2, 0x10, &WRITE), 0), at(5000)));
    assert_eq!(out.len(), 1);
    assert_eq!(out[0].counter, 1);
}

#[test]
fn shutdown_finishes() {
    let mut e = started(300);
    let out = e.step(Input::Command(Some(Command::Shutdown)), at(1));
    assert!(matches!(out[0], Event::Stopped));
    assert!(matches!(e.phase(), Phase::Finished));
    assert!(e.step(Input::Command(Some(Command::Start(build_cfg("x", 1)))), at(2)).is_empty());
    assert!(matches!(e.phase(), Phase::Finished));
    let mut idle = CaptureEngine::new(500);
    assert!(idle.step(Input::Command(Some(Command::Stop)), at(0)).is_empty());
    assert!(matches!(idle.phase(), Phase::Idle));
    assert!(idle.step(Input::Command(None), at(0)).is_empty());
    assert!(matches!(idle.phase(), Phase::Finished));
}

#[test]
fn inputs_out_of_turn_change_nothing() {
    let mut e = CaptureEngine::new(500);
    assert!(e.step(Input::Opened, at(0)).is_empty());
    assert!(e.step(Input::Read(vec![1], 0), at(0)).is_empty());
    assert!(e.step(Input::Tick, at(0)).is_empty());
    assert!(matches!(e.phase(), Phase::Idle));
    assert_eq!(e.buffered(), 0);
}
