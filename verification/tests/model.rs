//! The display model.

use chrono::{DateTime, Local, TimeZone};
use mbshark2::protocol::pdu::{parse_pdu, ParsedPdu, Role};
use mbshark2::session::model::{Entry, EntryBody, Tag};
use mbshark2::time::Timestamp;

/// A local time of chrono as a timestamp of the library.
fn stamp(t: DateTime<Local>) -> Timestamp {
    Timestamp::new(t.timestamp(), t.timestamp_subsec_nanos(), t.offset().local_minus_utc()).unwrap()
}

fn ts() -> Timestamp {
    stamp(Local.with_ymd_and_hms(2026, 8, 3, 0, 0, 0).unwrap())
}

fn req_pdu() -> ParsedPdu {
    parse_pdu(Role::Unknown, 0x03, &[0x00, 0x00, 0x00, 0x0A])
}

#[test]
fn slave_for_each_body_variant() {
    let p = req_pdu();
    assert_eq!(Entry::request(ts(), 1, vec![2, 3], 2, p.clone()).slave(), Some(2));
    assert_eq!(Entry::response(ts(), 1, vec![2, 3], 2, p.clone()).slave(), Some(2));
    assert_eq!(Entry::orphan(ts(), 1, vec![2, 3], 2, p.clone(), p.clone()).slave(), Some(2));
    assert_eq!(Entry::unsolicited(ts(), 1, vec![2, 3], 2, p.clone()).slave(), Some(2));
    // Timeout / NoResponse carry no slave on their own.
    assert_eq!(Entry::timeout(ts(), 1).slave(), None);
    assert_eq!(Entry::no_response(ts(), 1).slave(), None);
    // ParseFailure falls back to the first raw byte (the RTU address field).
    assert_eq!(
        Entry::parse_failure(ts(), 1, vec![0x05, 0xFF], "bad".into()).slave(),
        Some(0x05)
    );
    // Empty raw (e.g. a degenerate flush) -> None.
    assert_eq!(Entry::parse_failure(ts(), 1, vec![], "empty".into()).slave(), None);
}

#[test]
fn labels_are_eight_wide() {
    assert_eq!(Tag::Request.label(), "REQUEST ");
    assert_eq!(Tag::Response.label(), "RESPONSE");
    assert_eq!(Tag::Orphan.label(), "ORPHAN  ");
    assert_eq!(Tag::Parse.label(), "PARSE   ");
    for tag in [Tag::Request, Tag::Response, Tag::Orphan, Tag::Parse] {
        assert_eq!(tag.label().chars().count(), 8);
    }
}

#[test]
fn tags_of_the_entries() {
    let p = req_pdu();
    assert_eq!(Entry::request(ts(), 1, vec![], 2, p.clone()).tag, Tag::Request);
    assert_eq!(Entry::response(ts(), 1, vec![], 2, p.clone()).tag, Tag::Response);
    assert_eq!(Entry::timeout(ts(), 1).tag, Tag::Response);
    assert_eq!(Entry::no_response(ts(), 1).tag, Tag::Response);
    assert_eq!(Entry::orphan(ts(), 1, vec![], 2, p.clone(), p.clone()).tag, Tag::Orphan);
    assert_eq!(Entry::unsolicited(ts(), 1, vec![], 2, p.clone()).tag, Tag::Orphan);
    assert_eq!(Entry::parse_failure(ts(), 1, vec![], "x".into()).tag, Tag::Parse);
}

#[test]
fn cloned_entry_keeps_everything() {
    let e = Entry::orphan(ts(), 9, vec![1, 2], 3, req_pdu(), req_pdu()).clone();
    assert_eq!((e.tag, e.ts, e.counter, e.raw), (Tag::Orphan, ts(), 9, vec![1, 2]));
    match e.body {
        EntryBody::Orphan { slave, late, orig } => {
            assert_eq!(slave, 3);
            assert_eq!(late, req_pdu());
            assert_eq!(orig, req_pdu());
        }
        other => panic!("wrong body {:?}", other),
    }
}
