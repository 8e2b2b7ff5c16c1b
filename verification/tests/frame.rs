//! RTU frame validation and length prediction.

use mbshark2::protocol::crc::crc16;
use mbshark2::protocol::frame::{frame_length_hint, LenHint, ModbusFrame, ParseError};
use mbshark2::protocol::pdu::{parse_pdu, PduDetails, Role};
use mbshark2::time::Timestamp;

fn now() -> Timestamp {
    let t = chrono::Local::now();
    Timestamp::new(t.timestamp(), t.timestamp_subsec_nanos(), t.offset().local_minus_utc()).unwrap()
}

fn frame_bytes(payload: &[u8]) -> Vec<u8> {
    let mut v = payload.to_vec();
    let c = crc16(payload);
    v.push((c & 0xFF) as u8);
    v.push((c >> 8) as u8);
    v
}

#[test]
fn parses_valid_frame() {
    let raw = frame_bytes(&[0x02, 0x10, 0x00, 0x00, 0x00, 0x02, 0x04, 0x00, 0x00, 0x00, 0x01]);
    let f = ModbusFrame::from_bytes(raw.clone(), now()).unwrap();
    assert_eq!(f.slave, 0x02);
    assert_eq!(f.function, 0x10);
    assert_eq!(f.data, &[0x00, 0x00, 0x00, 0x02, 0x04, 0x00, 0x00, 0x00, 0x01]);
    assert_eq!(f.raw, raw);
}

#[test]
fn rejects_too_short() {
    let err = ModbusFrame::from_bytes(vec![0x01, 0x03], now()).unwrap_err();
    assert_eq!(err, ParseError::TooShort { len: 2 });
    assert!(err.reason().contains("Truncated"));
}

#[test]
fn rejects_bad_crc_and_carries_raw() {
    let mut raw = frame_bytes(&[0x01, 0x03, 0x00, 0x00, 0x00, 0x0A]);
    // Corrupt the last CRC byte.
    let last = raw.len() - 1;
    raw[last] ^= 0xFF;
    let err = ModbusFrame::from_bytes(raw.clone(), now()).unwrap_err();
    assert!(err.reason().contains("Bad CRC"));
    assert_eq!(err.raw(), raw.as_slice());
    match err {
        ParseError::BadCrc { expected, computed, .. } => assert_ne!(expected, computed),
        _ => panic!("expected BadCrc"),
    }
}

// --- frame_length_hint tests -------------------------------------------

/// Candidate list of a full frame built from `payload` (slave + fc + data).
fn cands_of(buf: &[u8]) -> Vec<usize> {
    match frame_length_hint(buf) {
        LenHint::Candidates(c) => c,
        other => panic!("expected Candidates, got {other:?}"),
    }
}

#[test]
fn hint_short_buffers_need_more() {
    assert_eq!(frame_length_hint(&[]), LenHint::NeedMore(2));
    assert_eq!(frame_length_hint(&[0x01]), LenHint::NeedMore(2));
    assert_eq!(frame_length_hint(&[0x01, 0x03]), LenHint::NeedMore(4));
    assert_eq!(frame_length_hint(&[0x01, 0x03, 0x00]), LenHint::NeedMore(4));
}

#[test]
fn hint_exception_response() {
    // slave + 0x83 + exception(1) + crc = 5
    let buf = frame_bytes(&[0x02, 0x83, 0x02]);
    assert_eq!(cands_of(&buf), vec![5]);
}

#[test]
fn hint_read_holding_regs_request() {
    // 0x03 request: data=4 → total 8; buf[2]=start_hi=0x00 → 5+0=5
    let buf = frame_bytes(&[0x01, 0x03, 0x00, 0x00, 0x00, 0x0A]);
    assert_eq!(cands_of(&buf), vec![5, 8]);
}

#[test]
fn hint_read_holding_regs_response() {
    // 0x03 response: bc=4 at buf[2] → 5+4=9; plus req candidate 8
    let buf = frame_bytes(&[0x01, 0x03, 0x04, 0x00, 0x0A, 0x00, 0x14, 0x00, 0x1E]);
    assert_eq!(cands_of(&buf), vec![8, 9]);
}

#[test]
fn hint_write_single_coil_and_reg() {
    // 0x05 / 0x06: data=4 → total 8 (both req and resp)
    assert_eq!(cands_of(&frame_bytes(&[0x01, 0x05, 0x00, 0xAC, 0xFF, 0x00])), vec![8]);
    assert_eq!(cands_of(&frame_bytes(&[0x01, 0x06, 0x00, 0x01, 0x00, 0x03])), vec![8]);
}

#[test]
fn hint_read_exception_status() {
    // 0x07: req data=0 → 4; resp data=1 → 5. Hint is role-agnostic.
    assert_eq!(cands_of(&frame_bytes(&[0x01, 0x07])), vec![4, 5]);
}

#[test]
fn hint_diagnostic_is_indeterminate() {
    assert_eq!(frame_length_hint(&frame_bytes(&[0x01, 0x08, 0x00, 0x00])), LenHint::Indeterminate);
}

#[test]
fn hint_comm_event_counter() {
    // 0x0B: req data=0 → 4; resp data=4 → 8
    assert_eq!(cands_of(&frame_bytes(&[0x01, 0x0B])), vec![4, 8]);
}

#[test]
fn hint_comm_event_log_response() {
    // 0x0C resp: bc=6 at buf[2] → 5+6=11; plus req candidate 4
    let buf = frame_bytes(&[0x01, 0x0C, 0x06, 0x00, 0x00, 0x00, 0x05, 0x00, 0x00, 0x00, 0x01]);
    assert_eq!(cands_of(&buf), vec![4, 11]);
}

#[test]
fn hint_write_multiple_regs_request_full() {
    // 0x10 req: bytecount at buf[6]=0x04 → 9+4=13; resp candidate 8
    let buf = frame_bytes(&[0x02, 0x10, 0x00, 0x00, 0x00, 0x02, 0x04, 0x00, 0x00, 0x00, 0x01]);
    assert_eq!(cands_of(&buf), vec![8, 13]);
}

#[test]
fn hint_write_multiple_regs_request_partial() {
    // With fewer than 7 bytes, the req byte-count byte (buf[6]) isn't
    // available, so only the resp candidate {8} is offered.
    let full = frame_bytes(&[0x02, 0x10, 0x00, 0x00, 0x00, 0x02, 0x04, 0x00, 0x00, 0x00, 0x01]);
    assert_eq!(cands_of(&full[..4]), vec![8]);
    assert_eq!(cands_of(&full[..6]), vec![8]);
    // Once 7 bytes are present the req candidate appears.
    assert_eq!(cands_of(&full[..7]), vec![8, 13]);
}

#[test]
fn hint_write_multiple_coils_request() {
    // 0x0F req: bytecount at buf[6]=0x01 → 9+1=10; resp candidate 8
    let buf = frame_bytes(&[0x02, 0x0F, 0x00, 0x00, 0x00, 0x01, 0x01, 0x01]);
    assert_eq!(cands_of(&buf), vec![8, 10]);
}

#[test]
fn hint_report_slave_id_response() {
    // 0x11 resp: bc=3 at buf[2] → 5+3=8; req candidate 4
    let buf = frame_bytes(&[0x01, 0x11, 0x03, 0x21, 0x42, 0x00]);
    assert_eq!(cands_of(&buf), vec![4, 8]);
}

#[test]
fn hint_read_file_records() {
    // 0x14: data = 1 + byte_count(at buf[2]); bc=7 → 5+7=12
    let buf = frame_bytes(&[0x01, 0x14, 0x07, 0x06, 0x00, 0x01, 0x00, 0x00, 0x00, 0x01, 0x00, 0x00]);
    assert_eq!(cands_of(&buf), vec![12]);
}

#[test]
fn hint_mask_write_register() {
    // 0x16: data=6 → total 10
    assert_eq!(cands_of(&frame_bytes(&[0x01, 0x16, 0x00, 0x04, 0xFF, 0xF2, 0x00, 0x00])), vec![10]);
}

#[test]
fn hint_read_write_multiple_regs_request_full() {
    // 0x17 req: write bytecount at buf[10]=0x04 → 13+4=17;
    // resp candidate 5+buf[2]=5+0=5
    let buf = frame_bytes(&[
        0x01, 0x17, 0x00, 0x00, 0x00, 0x02, 0x00, 0x00, 0x00, 0x02, 0x04, 0x00, 0x0A, 0x00, 0x0B,
    ]);
    assert_eq!(cands_of(&buf), vec![5, 17]);
}

#[test]
fn hint_read_write_multiple_regs_request_partial() {
    // With fewer than 11 bytes the req byte-count (buf[10]) isn't present,
    // so only the resp candidate {5+buf[2]} is offered.
    let full = frame_bytes(&[
        0x01, 0x17, 0x00, 0x00, 0x00, 0x02, 0x00, 0x00, 0x00, 0x02, 0x04, 0x00, 0x0A, 0x00, 0x0B,
    ]);
    assert_eq!(cands_of(&full[..4]), vec![5]);
    assert_eq!(cands_of(&full[..10]), vec![5]);
    assert_eq!(cands_of(&full[..11]), vec![5, 17]);
}

#[test]
fn hint_read_fifo_queue_request() {
    // 0x18 req: data=2 (addr=0x0001) → total 6; resp candidate 6+1=7
    let buf = frame_bytes(&[0x01, 0x18, 0x00, 0x01]);
    assert_eq!(cands_of(&buf), vec![6, 7]);
}

#[test]
fn hint_read_fifo_queue_response() {
    // 0x18 resp: count(bc)=6 at buf[2..4] → 6+6=12; req candidate 6
    let buf = frame_bytes(&[0x01, 0x18, 0x00, 0x06, 0x00, 0x02, 0x00, 0x0A, 0x00, 0x0B]);
    assert_eq!(cands_of(&buf), vec![6, 12]);
}

#[test]
fn hint_read_fifo_queue_huge_count_overflows_max_frame() {
    // A corrupt u16 count (0xFFFF) yields a candidate (6+65535) far beyond
    // MAX_FRAME_BYTES; the framer will reject it and fall back to gap.
    let buf = [0x01, 0x18, 0xFF, 0xFF];
    assert_eq!(cands_of(&buf), vec![6, 65541]);
}

#[test]
fn hint_encapsulated_interface_is_indeterminate() {
    assert_eq!(frame_length_hint(&frame_bytes(&[0x01, 0x2B, 0x0E, 0x01, 0x00])), LenHint::Indeterminate);
}

#[test]
fn hint_unknown_fc_is_indeterminate() {
    assert_eq!(frame_length_hint(&frame_bytes(&[0x01, 0x55, 0x00])), LenHint::Indeterminate);
}

// --- further cases -------------------------------------------------------------

#[test]
fn reasons_are_spelled_out() {
    let short = ModbusFrame::from_bytes(vec![0x01, 0x03, 0x00], now()).unwrap_err();
    assert_eq!(short.reason(), "Truncated frame (3 bytes, need ≥4)");
    assert!(short.raw().is_empty());
    let bad = ModbusFrame::from_bytes(vec![0x01, 0x03, 0x34, 0x12], now()).unwrap_err();
    let computed = crc16(&[0x01, 0x03]);
    assert_eq!(
        bad.reason(),
        format!("Bad CRC (expected 0x1234, computed 0x{:04X})", computed)
    );
    assert_eq!(
        bad,
        ParseError::BadCrc { raw: vec![0x01, 0x03, 0x34, 0x12], expected: 0x1234, computed }
    );
}

#[test]
fn shortest_frame_has_no_data() {
    let f = ModbusFrame::from_bytes(frame_bytes(&[0x07, 0x11]), now()).unwrap();
    assert_eq!((f.slave, f.function), (0x07, 0x11));
    assert!(f.data.is_empty());
    assert_eq!(f.raw.len(), 4);
}

#[test]
fn frame_parts_make_up_the_raw_bytes() {
    let raw = frame_bytes(&[0x02, 0x83, 0x02]);
    let f = ModbusFrame::from_bytes(raw.clone(), now()).unwrap();
    let mut again = vec![f.slave, f.function];
    again.extend_from_slice(&f.data);
    assert_eq!(frame_bytes(&again), raw);
}

#[test]
fn clones_are_equal() {
    let hint = frame_length_hint(&[0x01, 0x0B, 0x00, 0x00]);
    assert_eq!(hint.clone(), LenHint::Candidates(vec![4, 8]));
    let err = ParseError::TooShort { len: 1 };
    assert_eq!(err.clone(), err);
}

#[test]
fn equal_candidates_are_listed_once() {
    // 0x03 with a byte count of 3: the response is as long as a request.
    assert_eq!(cands_of(&[0x01, 0x03, 0x03, 0x00]), vec![8]);
}

#[test]
fn decodable_frames_have_a_predicted_length() {
    let payloads: [&[u8]; 12] = [
        &[0x01, 0x01, 0x00, 0x13, 0x00, 0x25],
        &[0x01, 0x03, 0x02, 0x12, 0x34],
        &[0x01, 0x06, 0x00, 0x01, 0x00, 0x03],
        &[0x01, 0x07, 0x6D],
        &[0x01, 0x0B, 0xFF, 0xFF, 0x01, 0x08],
        &[0x01, 0x0C, 0x06, 0x00, 0x00, 0x00, 0x05, 0x00, 0x00],
        &[0x01, 0x10, 0x00, 0x00, 0x00, 0x01, 0x02, 0x00, 0x07],
        &[0x01, 0x11, 0x02, 0x21, 0xFF],
        &[0x01, 0x15, 0x01, 0x06],
        &[0x01, 0x17, 0x02, 0x00, 0xFE],
        &[0x01, 0x18, 0x00, 0x04, 0x00, 0x01, 0x00, 0x0A],
        &[0x01, 0x83, 0x02],
    ];
    for payload in payloads {
        let mut buf = frame_bytes(payload);
        let len = buf.len();
        let pdu = parse_pdu(Role::Unknown, payload[1], &payload[2..]);
        assert!(!matches!(pdu.details, PduDetails::Raw { .. }));
        assert!(cands_of(&buf).contains(&len));
        // Whatever follows makes no difference.
        buf.extend([0xAA; 20]);
        assert!(cands_of(&buf).contains(&len));
    }
}
