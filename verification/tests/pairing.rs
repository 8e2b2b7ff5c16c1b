//! Request/response pairing.

use chrono::{DateTime, Local, TimeZone};
use mbshark2::protocol::crc::crc16;
use mbshark2::protocol::frame::ModbusFrame;
use mbshark2::protocol::pdu::{parse_pdu, ParsedPdu, Role};
use mbshark2::session::model::{Entry, EntryBody, Tag};
use mbshark2::session::pairing::{on_frame, sweep, PairingState, PendingReq};
use mbshark2::time::Timestamp;

/// A local time of chrono as a timestamp of the library.
fn stamp(t: DateTime<Local>) -> Timestamp {
    Timestamp::new(t.timestamp(), t.timestamp_subsec_nanos(), t.offset().local_minus_utc()).unwrap()
}

fn pdu_req(fc: u8, data: &[u8]) -> ParsedPdu {
    parse_pdu(Role::Unknown, fc, data)
}

/// Build a frame carrying `payload` (slave+fc+data, no CRC) with a valid
/// CRC and the given timestamp.
fn frame(slave: u8, fc: u8, data: &[u8], ts: Timestamp) -> (ModbusFrame, ParsedPdu) {
    let mut raw = vec![slave, fc];
    raw.extend_from_slice(data);
    let c = crc16(&raw);
    raw.push((c & 0xFF) as u8);
    raw.push((c >> 8) as u8);
    let f = ModbusFrame::from_bytes(raw, ts).unwrap();
    let p = parse_pdu(Role::Unknown, fc, &f.data);
    (f, p)
}

fn local_t0() -> DateTime<Local> {
    Local.with_ymd_and_hms(2026, 7, 31, 22, 3, 40).unwrap()
}

fn t0() -> Timestamp {
    stamp(local_t0())
}

fn after(millis: i64) -> Timestamp {
    stamp(local_t0() + chrono::Duration::milliseconds(millis))
}

#[test]
fn normal_pair() {
    let st = PairingState::new(500);
    let (st, out) = on_frame(
        st,
        frame(2, 0x10, &[0x00, 0x00, 0x00, 0x02, 0x04, 0x00, 0x00, 0x00, 0x01], t0()).0,
        pdu_req(0x10, &[0x00, 0x00, 0x00, 0x02, 0x04, 0x00, 0x00, 0x00, 0x01]),
        t0(),
    );
    assert_eq!(out.len(), 1);
    assert_eq!(out[0].tag, Tag::Request);
    assert_eq!(out[0].counter, 1);

    let (st, out2) = on_frame(
        st,
        frame(2, 0x10, &[0x00, 0x00, 0x00, 0x02], t0()).0,
        pdu_req(0x10, &[0x00, 0x00, 0x00, 0x02]),
        t0(),
    );
    assert_eq!(out2.len(), 1);
    assert_eq!(out2[0].tag, Tag::Response);
    assert_eq!(out2[0].counter, 1); // same counter as its request
    assert!(st.pending.is_empty());
}

#[test]
fn timeout_then_orphan() {
    let st = PairingState::new(500);
    let (st, out) = on_frame(
        st,
        frame(2, 0x10, &[0x00, 0x00, 0x00, 0x02, 0x04, 0x00, 0x00, 0x00, 0x01], t0()).0,
        pdu_req(0x10, &[0x00, 0x00, 0x00, 0x02, 0x04, 0x00, 0x00, 0x00, 0x01]),
        t0(),
    );
    assert_eq!(out[0].counter, 1);

    // After timeout, sweep emits a synthetic timeout response.
    let later = after(600);
    let (st, out2) = sweep(st, later);
    assert_eq!(out2.len(), 1);
    assert_eq!(out2[0].tag, Tag::Response);
    assert!(matches!(out2[0].body, EntryBody::Timeout));
    assert_eq!(out2[0].counter, 1);
    assert!(st.pending.is_empty());
    assert!(st.timed_out.contains_key(&2));

    // Late response arrives -> ORPHAN with the original counter.
    let (st, out3) = on_frame(
        st,
        frame(2, 0x10, &[0x00, 0x00, 0x00, 0x02], later).0,
        pdu_req(0x10, &[0x00, 0x00, 0x00, 0x02]),
        later,
    );
    assert_eq!(out3.len(), 1);
    assert_eq!(out3[0].tag, Tag::Orphan);
    assert_eq!(out3[0].counter, 1); // reuses original request counter
    assert!(st.timed_out.is_empty());
}

#[test]
fn unsolicited_response() {
    let st = PairingState::new(500);
    // A response with no prior request and no timed-out entry. FC 0x03
    // response shape: byte_count=4 + two registers (0x0000, 0x1234).
    let (_st, out) = on_frame(
        st,
        frame(2, 0x03, &[0x04, 0x00, 0x00, 0x12, 0x34], t0()).0,
        pdu_req(0x03, &[0x04, 0x00, 0x00, 0x12, 0x34]),
        t0(),
    );
    assert_eq!(out.len(), 1);
    assert_eq!(out[0].tag, Tag::Orphan);
    assert!(matches!(out[0].body, EntryBody::Unsolicited { .. }));
    assert_eq!(out[0].counter, 1);
}

#[test]
fn exception_response_pairs() {
    let st = PairingState::new(500);
    let (st, _) = on_frame(
        st,
        frame(2, 0x03, &[0x00, 0x00, 0x00, 0x0A], t0()).0,
        pdu_req(0x03, &[0x00, 0x00, 0x00, 0x0A]),
        t0(),
    );
    // Exception response: fc 0x83, code 2.
    let (f, p) = frame(2, 0x83, &[0x02], t0());
    let (st, out) = on_frame(st, f, p, t0());
    assert_eq!(out.len(), 1);
    assert_eq!(out[0].tag, Tag::Response);
    assert_eq!(out[0].counter, 1);
    assert!(st.pending.is_empty());
}

#[test]
fn overlapping_request_forces_timeout() {
    let st = PairingState::new(500);
    let (st, _) = on_frame(
        st,
        frame(2, 0x03, &[0x00, 0x00, 0x00, 0x0A], t0()).0,
        pdu_req(0x03, &[0x00, 0x00, 0x00, 0x0A]),
        t0(),
    );
    // Second request for same slave before the first is answered.
    let (st, out) = on_frame(
        st,
        frame(2, 0x03, &[0x00, 0x10, 0x00, 0x01], t0()).0,
        pdu_req(0x03, &[0x00, 0x10, 0x00, 0x01]),
        t0(),
    );
    // Expect: a synthetic timeout for counter 1, then a new request counter 2.
    assert_eq!(out.len(), 2);
    assert_eq!(out[0].counter, 1);
    assert!(matches!(out[0].body, EntryBody::Timeout));
    assert_eq!(out[1].counter, 2);
    assert_eq!(out[1].tag, Tag::Request);
    assert!(st.timed_out.contains_key(&2));
}

#[test]
fn sweep_keeps_pending_within_timeout() {
    let st = PairingState::new(500);
    let (st, _) = on_frame(
        st,
        frame(2, 0x03, &[0x00, 0x00, 0x00, 0x0A], t0()).0,
        pdu_req(0x03, &[0x00, 0x00, 0x00, 0x0A]),
        t0(),
    );
    let (st, out) = sweep(st, after(100));
    assert!(out.is_empty());
    assert!(st.pending.contains_key(&2));
}

#[test]
fn reset_clears_state() {
    let mut st = PairingState::new(500);
    st.next_counter = 42;
    st.pending.insert(2, PendingReq {
        opened_at: t0(),
        counter: 1,
        slave: 2,
        parsed: pdu_req(0x03, &[0x00, 0x00, 0x00, 0x0A]),
        raw: vec![],
    });
    st.reset();
    assert_eq!(st.next_counter, 1);
    assert!(st.pending.is_empty());
    assert!(st.timed_out.is_empty());
}

// --- further cases -------------------------------------------------------------

const READ: [u8; 4] = [0x00, 0x00, 0x00, 0x0A];

fn ask(st: PairingState, slave: u8, at: Timestamp) -> (PairingState, Vec<Entry>) {
    let (f, p) = frame(slave, 0x03, &READ, at);
    on_frame(st, f, p, at)
}

fn answer(st: PairingState, slave: u8, at: Timestamp) -> (PairingState, Vec<Entry>) {
    let (f, p) = frame(slave, 0x03, &[0x02, 0x12, 0x34], at);
    on_frame(st, f, p, at)
}

#[test]
fn request_to_another_slave_means_no_response() {
    let (st, _) = ask(PairingState::new(500), 5, t0());
    let (st, out) = ask(st, 6, t0());
    assert_eq!(out.len(), 2);
    assert!(matches!(out[0].body, EntryBody::NoResponse));
    assert_eq!((out[0].tag, out[0].counter), (Tag::Response, 1));
    assert!(out[0].raw.is_empty());
    assert_eq!((out[1].tag, out[1].counter), (Tag::Request, 2));
    // Only the new request is still pending.
    assert_eq!(st.pending.len(), 1);
    assert!(st.pending.contains_key(&6));
    assert!(st.timed_out.contains_key(&5));
}

#[test]
fn open_requests_are_closed_in_order() {
    let mut st = PairingState::new(500);
    for (slave, counter) in [(9u8, 1u64), (3, 2), (5, 3)] {
        st.pending.insert(slave, PendingReq {
            opened_at: t0(),
            counter,
            slave,
            parsed: pdu_req(0x03, &READ),
            raw: vec![],
        });
    }
    st.next_counter = 4;
    let (st, out) = ask(st, 5, t0());
    let seen: Vec<(u64, bool)> =
        out.iter().map(|e| (e.counter, matches!(e.body, EntryBody::NoResponse))).collect();
    // The own slave first, then the others by address, then the request.
    assert_eq!(seen, vec![(3, false), (2, true), (1, true), (4, false)]);
    assert_eq!(st.pending.len(), 1);
    assert_eq!(st.next_counter, 5);
}

#[test]
fn open_role_goes_by_what_is_pending() {
    // FC 0x06 looks the same both ways.
    let echo = [0x00, 0x01, 0x00, 0x03];
    let (f, p) = frame(2, 0x06, &echo, t0());
    assert_eq!(p.role, Role::Unknown);
    let (st, out) = on_frame(PairingState::new(500), f, p, t0());
    assert_eq!(out[0].tag, Tag::Request);
    let (f, p) = frame(2, 0x06, &echo, t0());
    let (st, out) = on_frame(st, f, p, t0());
    assert_eq!((out[0].tag, out[0].counter), (Tag::Response, 1));
    assert!(st.pending.is_empty());
}

#[test]
fn roles_are_settled_in_context() {
    let st = PairingState::new(500);
    assert_eq!(st.settle_role(2, Role::Unknown), Role::Request);
    assert_eq!(st.settle_role(2, Role::Response), Role::Response);
    let (st, _) = ask(st, 2, t0());
    assert_eq!(st.settle_role(2, Role::Unknown), Role::Response);
    assert_eq!(st.settle_role(2, Role::Request), Role::Request);
    assert_eq!(st.settle_role(3, Role::Unknown), Role::Request);
}

#[test]
fn counters_are_given_out_in_order() {
    let mut st = PairingState::new(250);
    // Any start will do.
    st.next_counter = 0;
    let (st, out) = ask(st, 2, t0());
    assert_eq!((out[0].tag, out[0].counter, st.next_counter), (Tag::Request, 0, 1));
    let (st, out) = answer(st, 2, t0());
    assert_eq!((out[0].tag, out[0].counter, st.next_counter), (Tag::Response, 0, 1));
    let (st, out) = answer(st, 2, t0());
    assert!(matches!(out[0].body, EntryBody::Unsolicited { .. }));
    assert_eq!((out[0].counter, st.next_counter), (1, 2));
    let (st, _) = ask(st, 2, t0());
    let (st, out) = sweep(st, after(600));
    assert_eq!((out[0].counter, st.next_counter), (2, 3));
    let (st, out) = answer(st, 2, after(700));
    assert_eq!((out[0].tag, out[0].counter, st.next_counter), (Tag::Orphan, 2, 3));
    assert_eq!(st.response_timeout, 250);
}

#[test]
fn timeout_is_not_before_its_time() {
    let (st, _) = ask(PairingState::new(500), 2, t0());
    let (st, out) = sweep(st, after(500));
    assert!(out.is_empty());
    let (st, out) = sweep(st, after(501));
    assert_eq!(out.len(), 1);
    assert_eq!(out[0].ts, after(501));
    let (_, out) = sweep(st, after(501));
    assert!(out.is_empty());
}

#[test]
fn clock_that_goes_back_times_nothing_out() {
    let (st, _) = ask(PairingState::new(0), 2, t0());
    let (st, out) = sweep(st, after(-5000));
    assert!(out.is_empty());
    let (_, out) = sweep(st, after(1));
    assert_eq!(out.len(), 1);
}

#[test]
fn late_responses_match_the_oldest_request_first() {
    let (st, _) = ask(PairingState::new(500), 2, t0());
    let (st, _) = ask(st, 2, t0());
    let (st, _) = sweep(st, after(600));
    let (st, out) = answer(st, 2, after(700));
    assert_eq!((out[0].tag, out[0].counter), (Tag::Orphan, 1));
    let (st, out) = answer(st, 2, after(700));
    assert_eq!((out[0].tag, out[0].counter), (Tag::Orphan, 2));
    // Nothing is left to match.
    assert!(st.timed_out.is_empty());
    let (st, out) = answer(st, 2, after(700));
    assert!(matches!(out[0].body, EntryBody::Unsolicited { .. }));
    assert_eq!(out[0].counter, 3);
    assert_eq!(st.next_counter, 4);
}

#[test]
fn only_so_many_timed_out_requests_are_kept() {
    let mut st = PairingState::new(500);
    for _ in 0..40 {
        st = ask(st, 2, t0()).0;
    }
    assert_eq!(st.timed_out[&2].len(), 32);
    assert_eq!(st.timed_out[&2][0].counter, 8);
    assert_eq!(st.timed_out[&2][31].counter, 39);
}

#[test]
fn every_frame_shows_its_bytes() {
    let (f, p) = frame(7, 0x03, &READ, t0());
    let raw = f.raw.clone();
    let (st, out) = on_frame(PairingState::new(500), f, p, after(3));
    assert_eq!(out.last().unwrap().raw, raw);
    assert_eq!(out.last().unwrap().ts, t0());
    let copy = st.pending[&7].clone();
    assert_eq!((copy.counter, copy.slave, copy.raw, copy.opened_at), (1, 7, raw, t0()));
}

#[test]
fn every_request_is_closed_once() {
    let mut st = PairingState::new(500);
    let (mut opened, mut closed) = (0usize, 0usize);
    let mut count = |out: &Vec<Entry>| {
        opened += out.iter().filter(|e| e.tag == Tag::Request).count();
        closed += out.iter().filter(|e| e.tag == Tag::Response).count();
        opened - closed
    };
    for (i, slave) in [2u8, 2, 5, 7, 7, 9].into_iter().enumerate() {
        let (next, out) = ask(st, slave, after(i as i64));
        assert_eq!(count(&out), next.pending.len());
        let (next, out) = if i % 2 == 0 {
            answer(next, slave, after(i as i64))
        } else {
            sweep(next, after(i as i64))
        };
        assert_eq!(count(&out), next.pending.len());
        let (next, out) = answer(next, 200, after(i as i64));
        assert_eq!(count(&out), next.pending.len());
        st = next;
    }
    let (st, out) = sweep(st, after(9000));
    assert_eq!(count(&out), 0);
    assert!(st.pending.is_empty());
}
