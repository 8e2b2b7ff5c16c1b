//! The capture list and its export.

use std::collections::{HashSet, VecDeque};

use mbshark2::export::{default_file_name, default_name_with, entries_to_text};
use mbshark2::protocol::pdu::{parse_pdu, ParsedPdu, Role};
use mbshark2::render::format::{counter_slave_map, SpanRole};
use mbshark2::render::ui_view::{role_color, visible_rows, Row, ERROR_RED};
use mbshark2::session::model::{Entry, Tag};
use mbshark2::time::Timestamp;

fn ts() -> Timestamp {
    Timestamp::new(79_420, 775_000_000, 0).unwrap()
}

fn read() -> ParsedPdu {
    parse_pdu(Role::Unknown, 0x03, &[0x00, 0x00, 0x00, 0x0A])
}

fn sample() -> VecDeque<Entry> {
    let mut v: VecDeque<Entry> = VecDeque::new();
    v.push_back(Entry::request(ts(), 1, vec![0x05], 5, read()));
    v.push_back(Entry::no_response(ts(), 1));
    v.push_back(Entry::request(ts(), 2, vec![0x06], 6, read()));
    v.push_back(Entry::parse_failure(ts(), 3, vec![0x05, 0xFF], "bad".into()));
    v
}

#[test]
fn rows_without_a_filter() {
    let entries = sample();
    let map = counter_slave_map(&entries);
    assert_eq!(
        visible_rows(&entries, &map, None),
        vec![
            Row { index: 0, separated: false },
            Row { index: 1, separated: false },
            Row { index: 2, separated: true },
            Row { index: 3, separated: true },
        ]
    );
}

#[test]
fn rows_with_a_filter() {
    let entries = sample();
    let map = counter_slave_map(&entries);
    let five: HashSet<u8> = [5u8].into_iter().collect();
    assert_eq!(
        visible_rows(&entries, &map, Some(&five)),
        vec![
            Row { index: 0, separated: false },
            Row { index: 1, separated: false },
            Row { index: 3, separated: true },
        ]
    );
    let six: HashSet<u8> = [6u8].into_iter().collect();
    // The first row shown has nothing before it to be set apart from.
    assert_eq!(
        visible_rows(&entries, &map, Some(&six)),
        vec![Row { index: 2, separated: false }]
    );
}

#[test]
fn export_without_a_filter() {
    assert_eq!(
        entries_to_text(&sample(), None),
        "[REQUEST ][22:03:40.775(      1)] 05\n  Slave:   5(0x05)\n  \
         Read Holding Registers: from 0x0000, count 10\n\
         [RESPONSE][22:03:40.775(      1)]\n  Error: No Response\n\
         ---\n\
         [REQUEST ][22:03:40.775(      2)] 06\n  Slave:   6(0x06)\n  \
         Read Holding Registers: from 0x0000, count 10\n\
         ---\n\
         [PARSE   ][22:03:40.775(      3)] 05 ff\n  Error: bad\n"
    );
}

#[test]
fn export_with_a_filter() {
    let six: HashSet<u8> = [6u8].into_iter().collect();
    assert_eq!(
        entries_to_text(&sample(), Some(&six)),
        "[REQUEST ][22:03:40.775(      2)] 06\n  Slave:   6(0x06)\n  \
         Read Holding Registers: from 0x0000, count 10\n"
    );
    assert_eq!(entries_to_text(&VecDeque::new(), None), "");
}

#[test]
fn export_grows_with_the_list() {
    let mut entries = sample();
    let before = entries_to_text(&entries, None);
    entries.push_back(Entry::timeout(ts(), 2));
    assert!(entries_to_text(&entries, None).starts_with(&before));
}

#[test]
fn exported_files_are_named_after_the_time() {
    assert_eq!(default_name_with("x"), "mbshark_x.txt");
    assert_eq!(default_file_name(&ts()), "mbshark_19700101_220340.txt");
}

#[test]
fn colors() {
    assert_eq!(ERROR_RED, (0xf8, 0x51, 0x49));
    assert_eq!(role_color(SpanRole::Tag, Tag::Request), (0x4a, 0x9f, 0xf0));
    assert_eq!(role_color(SpanRole::Tag, Tag::Response), (0x3f, 0xb9, 0x50));
    assert_eq!(role_color(SpanRole::Tag, Tag::Orphan), (0xd2, 0x99, 0x22));
    assert_eq!(role_color(SpanRole::Tag, Tag::Parse), ERROR_RED);
    assert_eq!(role_color(SpanRole::Error, Tag::Request), ERROR_RED);
    assert_eq!(role_color(SpanRole::Hex, Tag::Request), (0xb1, 0xba, 0xca));
    assert_eq!(role_color(SpanRole::Timestamp, Tag::Request), (0x8b, 0x94, 0x9e));
    assert_eq!(role_color(SpanRole::Address, Tag::Request), (0xd2, 0xa8, 0xff));
    assert_eq!(role_color(SpanRole::Value, Tag::Request), (0x7e, 0xe7, 0x87));
    assert_eq!(role_color(SpanRole::Label, Tag::Request), (0xc9, 0xd1, 0xd9));
    assert_eq!(role_color(SpanRole::Plain, Tag::Request), (0xc9, 0xd1, 0xd9));
}
