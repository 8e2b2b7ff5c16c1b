//! The text of entries.

use std::collections::{HashMap, HashSet, VecDeque};

use chrono::{DateTime, Local, TimeZone, Timelike};
use mbshark2::protocol::crc::crc16;
use mbshark2::protocol::pdu::{parse_pdu, ParsedPdu, PduDetails, Role};
use mbshark2::render::format::{
    counter_slave_map, entry_to_plain, format_entry, hex_str, lines_to_plain, should_separate,
    should_show, SpanRole,
};
use mbshark2::session::model::{Entry, EntryBody, Tag};
use mbshark2::time::Timestamp;

/// A local time of chrono as a timestamp of the library.
fn stamp(t: DateTime<Local>) -> Timestamp {
    Timestamp::new(t.timestamp(), t.timestamp_subsec_nanos(), t.offset().local_minus_utc()).unwrap()
}

fn ts() -> Timestamp {
    stamp(
        Local
            .with_ymd_and_hms(2026, 7, 31, 22, 3, 40)
            .unwrap()
            .with_nanosecond(775_000_000)
            .unwrap(),
    )
}

fn hex_line_of(entry: &Entry) -> String {
    // The first line is the header; extract its plain text.
    lines_to_plain(&format_entry(entry)).lines().next().unwrap().to_string()
}

#[test]
fn request_block_matches_readme_layout() {
    // FC 0x10 request: slave 2, start 0, count 2, values 0x0000 0x0001
    let mut data = vec![0x00, 0x00, 0x00, 0x02, 0x04, 0x00, 0x00, 0x00, 0x01];
    let parsed = parse_pdu(Role::Unknown, 0x10, &data);
    let raw = {
        let mut r = vec![0x02, 0x10];
        r.append(&mut data);
        let c = crc16(&r);
        r.push((c & 0xFF) as u8);
        r.push((c >> 8) as u8);
        r
    };
    let entry = Entry::request(ts(), 1, raw.clone(), 2, parsed);
    let text = entry_to_plain(&entry);
    let lines: Vec<&str> = text.lines().collect();
    assert_eq!(
        lines[0],
        format!("[REQUEST ][22:03:40.775(      1)] {}", hex_str(&raw))
    );
    assert_eq!(lines[1], "  Slave:   2(0x02)");
    assert_eq!(lines[2], "  Write Holding Registers: from 0x0000, count 2");
    assert_eq!(lines[3], "    0x0000: 0x0000(0)");
    assert_eq!(lines[4], "    0x0001: 0x0001(1)");
}

#[test]
fn response_block_matches_readme_layout() {
    // FC 0x10 response: slave 2, start 0, count 2
    let data = vec![0x00, 0x00, 0x00, 0x02];
    let parsed = parse_pdu(Role::Unknown, 0x10, &data);
    let raw = {
        let mut r = vec![0x02, 0x10];
        r.extend_from_slice(&data);
        let c = crc16(&r);
        r.push((c & 0xFF) as u8);
        r.push((c >> 8) as u8);
        r
    };
    let entry = Entry::response(ts(), 1, raw.clone(), 2, parsed);
    let text = entry_to_plain(&entry);
    let lines: Vec<&str> = text.lines().collect();
    assert_eq!(
        lines[0],
        format!("[RESPONSE][22:03:40.775(      1)] {}", hex_str(&raw))
    );
    assert_eq!(lines[1], "  Slave:   2(0x02)");
    assert_eq!(
        lines[2],
        "  Write Holding Registers: from 0x0000, count 2"
    );
}

#[test]
fn exception_response_block() {
    // FC 0x10 exception response: slave 2, exception code 2 (Illegal Data Address)
    let data = vec![0x02];
    let parsed = parse_pdu(Role::Unknown, 0x90, &data);
    let raw = {
        let mut r = vec![0x02, 0x90];
        r.extend_from_slice(&data);
        let c = crc16(&r);
        r.push((c & 0xFF) as u8);
        r.push((c >> 8) as u8);
        r
    };
    let entry = Entry::response(ts(), 1, raw.clone(), 2, parsed);
    let text = entry_to_plain(&entry);
    let lines: Vec<&str> = text.lines().collect();
    assert_eq!(
        lines[0],
        format!("[RESPONSE][22:03:40.775(      1)] {}", hex_str(&raw))
    );
    assert_eq!(lines[1], "  Slave:   2(0x02)");
    assert_eq!(lines[2], "  Write Holding Registers: Exception");
    assert_eq!(lines[3], "  Error: Illegal Data Address (code 2)");
}

#[test]
fn timeout_block_has_no_hex() {
    let entry = Entry::timeout(ts(), 1);
    let text = entry_to_plain(&entry);
    let lines: Vec<&str> = text.lines().collect();
    assert_eq!(lines[0], "[RESPONSE][22:03:40.775(      1)]");
    assert_eq!(lines[1], "  Error: Timeout");
}

#[test]
fn orphan_block_matches_readme_layout() {
    // Original request: FC 0x10, slave 2, start 0, count 2, values 0/1
    let req_data = vec![0x00, 0x00, 0x00, 0x02, 0x04, 0x00, 0x00, 0x00, 0x01];
    let orig = parse_pdu(Role::Unknown, 0x10, &req_data);
    // Late response: FC 0x10, slave 2, start 0, count 2
    let resp_data = vec![0x00, 0x00, 0x00, 0x02];
    let late = parse_pdu(Role::Unknown, 0x10, &resp_data);
    let late_raw = {
        let mut r = vec![0x02, 0x10];
        r.extend_from_slice(&resp_data);
        let c = crc16(&r);
        r.push((c & 0xFF) as u8);
        r.push((c >> 8) as u8);
        r
    };
    let entry = Entry::orphan(ts(), 1, late_raw.clone(), 2, late, orig);
    let text = entry_to_plain(&entry);
    let lines: Vec<&str> = text.lines().collect();
    assert_eq!(
        lines[0],
        format!("[ORPHAN  ][22:03:40.775(      1)] {}", hex_str(&late_raw))
    );
    assert_eq!(lines[1], "  Slave:   2(0x02)");
    assert_eq!(lines[2], "  Error: Response Timeout");
    assert_eq!(lines[3], "  Write Holding Registers: from 0x0000, count 2");
    assert_eq!(lines[4], "    0x0000: 0x0000(0)");
    assert_eq!(lines[5], "    0x0001: 0x0001(1)");
}

#[test]
fn parse_failure_block() {
    let entry = Entry::parse_failure(ts(), 1, vec![0x01, 0x02], "Bad CRC (expected 0x1234, computed 0x5678)".into());
    let text = entry_to_plain(&entry);
    let lines: Vec<&str> = text.lines().collect();
    assert_eq!(lines[0], "[PARSE   ][22:03:40.775(      1)] 01 02");
    assert_eq!(lines[1], "  Error: Bad CRC (expected 0x1234, computed 0x5678)");
    // smoke-check the helper used by the test itself
    let _ = hex_line_of(&Entry::timeout(ts(), 1));
}

// --- every detail line ---------------------------------------------------------

fn asked(function: u8, details: PduDetails) -> String {
    let parsed = ParsedPdu { function, role: Role::Request, details };
    let text = entry_to_plain(&Entry::request(ts(), 1, vec![], 2, parsed));
    text.split_once("  Slave:   2(0x02)\n").unwrap().1.to_string()
}

fn answered(function: u8, details: PduDetails) -> String {
    let parsed = ParsedPdu { function, role: Role::Response, details };
    let text = entry_to_plain(&Entry::response(ts(), 1, vec![], 2, parsed));
    text.split_once("  Slave:   2(0x02)\n").unwrap().1.to_string()
}

#[test]
fn request_details() {
    assert_eq!(
        asked(0x01, PduDetails::ReadCoilsReq { start: 0xAB, count: 3 }),
        "  Read Coils: from 0x00AB, count 3"
    );
    assert_eq!(
        asked(0x04, PduDetails::ReadRegsReq { start: 1, count: 65535 }),
        "  Read Input Registers: from 0x0001, count 65535"
    );
    assert_eq!(
        asked(0x05, PduDetails::WriteSingleCoilReq { addr: 0xAC, on: true }),
        "  Write Single Coil: addr 0x00AC, ON"
    );
    assert_eq!(
        asked(0x06, PduDetails::WriteSingleRegReq { addr: 1, value: 0x0A10 }),
        "  Write Single Register: addr 0x0001, value 0x0A10(2576)"
    );
    assert_eq!(
        asked(
            0x0F,
            PduDetails::WriteMultipleCoilsReq { start: 2, count: 2, bits: vec![true, false] }
        ),
        "  Write Multiple Coils: from 0x0002, count 2\n    0x0002: 0x0001(1)\n    0x0003: 0x0000(0)"
    );
    assert_eq!(
        asked(0x16, PduDetails::MaskWriteRegReq { addr: 4, and_mask: 0xF2, or_mask: 0x25 }),
        "  Mask Write Register: addr 0x0004, and 0x00F2, or 0x0025"
    );
    assert_eq!(
        asked(
            0x17,
            PduDetails::ReadWriteMultipleRegsReq {
                read_start: 3,
                read_count: 6,
                write_start: 14,
                write_count: 1,
                write_values: vec![255],
            }
        ),
        "  Read/Write Multiple Registers: read 0x0003/6, write 0x000E/1\n    0x000E: 0x00FF(255)"
    );
    assert_eq!(
        asked(0x08, PduDetails::Diagnostic { sub: 10, data: vec![1, 2, 3] }),
        "  Diagnostics: sub 0x000A, 3 data bytes"
    );
    assert_eq!(
        asked(0x2B, PduDetails::EncapsulatedInterface { mei_type: 14, data: vec![] }),
        "  Encapsulated Interface Transport: MEI 0x0E, 0 data bytes"
    );
    assert_eq!(asked(0x03, PduDetails::Raw { reason: "odd".into() }), "  Error: odd");
    assert_eq!(
        asked(0x14, PduDetails::ReadFileRecordsReq { sub_requests: vec![] }),
        "  Read File Records (request view unavailable)"
    );
}

#[test]
fn response_details() {
    assert_eq!(
        answered(0x01, PduDetails::ReadCoilsResp { bits: vec![true; 8] }),
        "  Read Coils: 8 bits"
    );
    assert_eq!(
        answered(0x03, PduDetails::ReadRegsResp { values: vec![10, 20] }),
        "  Read Holding Registers: 2 registers\n    0x0000: 0x000A(10)\n    0x0001: 0x0014(20)"
    );
    assert_eq!(
        answered(0x05, PduDetails::WriteSingleCoilResp { addr: 1, on: false }),
        "  Write Single Coil: addr 0x0001, OFF"
    );
    assert_eq!(
        answered(0x06, PduDetails::WriteSingleRegResp { addr: 1, value: 3 }),
        "  Write Single Register: addr 0x0001, value 0x0003(3)"
    );
    assert_eq!(
        answered(0x0F, PduDetails::WriteMultipleCoilsResp { start: 0x13, count: 10 }),
        "  Write Multiple Coils: from 0x0013, count 10"
    );
    assert_eq!(
        answered(0x16, PduDetails::MaskWriteRegResp { addr: 4, and_mask: 0xF2, or_mask: 0x25 }),
        "  Mask Write Register: addr 0x0004, and 0x00F2, or 0x0025"
    );
    assert_eq!(
        answered(0x17, PduDetails::ReadWriteMultipleRegsResp { read_values: vec![254] }),
        "  Read/Write Multiple Registers: 1 registers\n    0x0000: 0x00FE(254)"
    );
    assert_eq!(
        answered(0x07, PduDetails::ReadExceptionStatusResp { status: 0x6D }),
        "  Read Exception Status: status 0x6D"
    );
    assert_eq!(
        answered(0x0B, PduDetails::CommEventCounterResp { status: 65535, event_count: 264 }),
        "  Get Comm Event Counter: status 65535, events 264"
    );
    assert_eq!(answered(0x03, PduDetails::Raw { reason: "odd".into() }), "  Error: odd");
    assert_eq!(
        answered(0x18, PduDetails::ReadFifoQueueResp { fifo_count: 0, values: vec![] }),
        "  Read FIFO Queue"
    );
}

#[test]
fn addresses_go_on_at_zero() {
    assert_eq!(
        asked(
            0x10,
            PduDetails::WriteMultipleRegsReq { start: 0xFFFF, count: 2, values: vec![7, 8] }
        ),
        "  Write Holding Registers: from 0xFFFF, count 2\n    0xFFFF: 0x0007(7)\n    0x0000: 0x0008(8)"
    );
}

#[test]
fn no_response_block() {
    let text = entry_to_plain(&Entry::no_response(ts(), 1));
    assert_eq!(text, "[RESPONSE][22:03:40.775(      1)]\n  Error: No Response");
}

#[test]
fn unsolicited_block() {
    let parsed = parse_pdu(Role::Unknown, 0x03, &[0x02, 0x12, 0x34]);
    let text = entry_to_plain(&Entry::unsolicited(ts(), 12345678, vec![0xAB], 255, parsed));
    assert_eq!(
        text,
        "[ORPHAN  ][22:03:40.775(12345678)] ab\n  Slave:   255(0xFF)\n  \
         Error: No matching request\n  Read Holding Registers: 1 registers\n    0x0000: 0x1234(4660)"
    );
}

#[test]
fn frame_with_a_foreign_tag_is_a_header_only() {
    let entry = Entry {
        tag: Tag::Parse,
        ts: ts(),
        counter: 3,
        raw: vec![],
        body: EntryBody::Frame { slave: 1, parsed: parse_pdu(Role::Unknown, 0x03, &[]) },
    };
    assert_eq!(entry_to_plain(&entry), "[PARSE   ][22:03:40.775(      3)]");
}

#[test]
fn spans_have_their_roles() {
    let lines = format_entry(&Entry::parse_failure(ts(), 1, vec![0x01], "bad".into()));
    let roles: Vec<SpanRole> = lines[0].0.iter().map(|s| s.role).collect();
    assert_eq!(roles, vec![SpanRole::Tag, SpanRole::Timestamp, SpanRole::Hex]);
    let copy = lines[1].clone();
    assert_eq!(copy.0[0].text, "  Error: ");
    assert_eq!(copy.0[0].role, SpanRole::Label);
    assert_eq!(copy.0[1].text, "bad");
    assert_eq!(copy.0[1].role, SpanRole::Error);
}

#[test]
fn hex_is_lower_case_and_spaced() {
    assert_eq!(hex_str(&[]), "");
    assert_eq!(hex_str(&[0x0A, 0xFF, 0x00, 0x9C]), "0a ff 00 9c");
    assert_eq!(lines_to_plain(&[]), "");
}

#[test]
fn separator_rules() {
    // REQUEST and its direct RESPONSE stand together.
    assert!(!should_separate(Some(1), 1, Tag::Response));
    // Another transaction is set apart.
    assert!(should_separate(Some(1), 2, Tag::Request));
    // So are orphans and parse failures, even first or with the same counter.
    assert!(should_separate(Some(1), 1, Tag::Orphan));
    assert!(should_separate(None, 1, Tag::Parse));
    assert!(!should_separate(None, 1, Tag::Request));
}

#[test]
fn sessions_are_filtered_as_a_whole() {
    let p = parse_pdu(Role::Unknown, 0x03, &[0x00, 0x00, 0x00, 0x0A]);
    let mut entries: VecDeque<Entry> = VecDeque::new();
    entries.push_back(Entry::request(ts(), 1, vec![2], 2, p.clone()));
    entries.push_back(Entry::timeout(ts(), 1));
    entries.push_back(Entry::request(ts(), 2, vec![3], 3, p.clone()));
    entries.push_back(Entry::no_response(ts(), 2));
    entries.push_back(Entry::response(ts(), 9, vec![4], 4, p));
    let map = counter_slave_map(&entries);
    assert_eq!(map, [(1u64, 2u8), (2, 3)].into_iter().collect::<HashMap<_, _>>());
    let set: HashSet<u8> = [2u8].into_iter().collect();
    let shown: Vec<bool> = entries.iter().map(|e| should_show(e, &map, Some(&set))).collect();
    assert_eq!(shown, vec![true, true, false, false, false]);
    assert!(entries.iter().all(|e| should_show(e, &map, None)));
    // An entry whose slave cannot be told passes no filter.
    assert!(!should_show(&Entry::timeout(ts(), 77), &map, Some(&set)));
}
