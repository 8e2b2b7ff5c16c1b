//! Frame assembly.

use mbshark2::capture::framer::{frame_gap, Framer, MAX_FRAME_BYTES};
use mbshark2::protocol::crc::append_crc;

/// A time in microseconds.
const NOW: u64 = 1_000_000;

#[test]
fn gap_values() {
    assert_eq!(frame_gap(9600), 4010);
    assert_eq!(frame_gap(19200), 2005);
    assert_eq!(frame_gap(115200), 1750);
}

#[test]
fn empty_buffer_has_no_deadline() {
    let f = Framer::new(9600);
    assert!(f.gap_deadline().is_none());
}

#[test]
fn deadline_is_last_byte_plus_gap() {
    let mut f = Framer::new(9600);
    let now = NOW;
    f.push(&[0x01, 0x03], now);
    assert_eq!(f.gap_deadline(), Some(now + frame_gap(9600)));
}

#[test]
fn flush_clears_buffer() {
    let mut f = Framer::new(9600);
    f.push(&[0x01, 0x03, 0x00], NOW);
    let frame = f.flush_due();
    assert_eq!(frame, vec![0x01, 0x03, 0x00]);
    assert!(f.buffer_len() == 0);
    assert!(f.gap_deadline().is_none());
}

#[test]
fn overflow_detected() {
    let mut f = Framer::new(9600);
    let big = vec![0u8; MAX_FRAME_BYTES + 10];
    f.push(&big, NOW);
    assert!(f.overflowed());
    let flushed = f.flush_due();
    assert_eq!(flushed.len(), MAX_FRAME_BYTES + 10);
    assert!(!f.overflowed());
}

#[test]
fn multiple_pushes_accumulate() {
    let mut f = Framer::new(9600);
    let t0 = NOW;
    f.push(&[0x01], t0);
    f.push(&[0x03, 0x00], t0);
    assert_eq!(f.buffer_len(), 3);
    assert_eq!(f.flush_due(), vec![0x01, 0x03, 0x00]);
}

// --- drain_complete tests ----------------------------------------------

/// Build a valid RTU frame (slave + fc + data + CRC) from a payload.
fn frame(payload: &[u8]) -> Vec<u8> {
    let mut v = payload.to_vec();
    append_crc(&mut v);
    v
}

/// A framer with a huge gap so the gap timer never interferes with tests.
fn frozen_framer() -> Framer {
    Framer::with_gap(60_000_000)
}

#[test]
fn drain_splits_two_coalesced_requests() {
    let mut f = frozen_framer();
    let req = frame(&[0x01, 0x03, 0x00, 0x00, 0x00, 0x0A]);
    let mut both = req.clone();
    both.extend_from_slice(&req);
    f.push(&both, NOW);

    let out = f.drain_complete();
    assert_eq!(out.len(), 2);
    assert_eq!(out[0], req);
    assert_eq!(out[1], req);
    assert_eq!(f.buffer_len(), 0);
}

#[test]
fn drain_splits_request_then_response() {
    let mut f = frozen_framer();
    let req = frame(&[0x02, 0x10, 0x00, 0x00, 0x00, 0x02, 0x04, 0x00, 0x00, 0x00, 0x01]);
    let resp = frame(&[0x02, 0x10, 0x00, 0x00, 0x00, 0x02]);
    let mut both = req.clone();
    both.extend_from_slice(&resp);
    f.push(&both, NOW);

    let out = f.drain_complete();
    assert_eq!(out.len(), 2);
    assert_eq!(out[0], req);
    assert_eq!(out[1], resp);
    assert_eq!(f.buffer_len(), 0);
}

#[test]
fn drain_leaves_partial_tail() {
    let mut f = frozen_framer();
    let req = frame(&[0x01, 0x03, 0x00, 0x00, 0x00, 0x0A]);
    let mut both = req.clone();
    both.extend_from_slice(&[0x01, 0x03, 0x00]); // 3 bytes of a future frame
    f.push(&both, NOW);

    let out = f.drain_complete();
    assert_eq!(out.len(), 1);
    assert_eq!(out[0], req);
    assert_eq!(f.buffer_len(), 3);
    assert_eq!(f.flush_due(), vec![0x01, 0x03, 0x00]);
}

#[test]
fn drain_partial_frame_returns_empty() {
    let mut f = frozen_framer();
    // First 6 bytes of an 0x03 request (no CRC) - no complete frame yet.
    f.push(&[0x01, 0x03, 0x00, 0x00, 0x00, 0x0A], NOW);
    let out = f.drain_complete();
    assert!(out.is_empty());
    assert_eq!(f.buffer_len(), 6);
}

#[test]
fn drain_indeterminate_function_code_breaks() {
    let mut f = frozen_framer();
    // A valid 0x08 (Diagnostics) frame is Indeterminate, so drain_complete
    // must NOT peel it - even when a valid 0x03 request follows. The whole
    // buffer is left for the gap timer to flush as one parse-failure entry.
    let diag = frame(&[0x01, 0x08, 0x00, 0x00]);
    let req = frame(&[0x01, 0x03, 0x00, 0x00, 0x00, 0x0A]);
    let mut both = diag.clone();
    both.extend_from_slice(&req);
    f.push(&both, NOW);

    let out = f.drain_complete();
    assert!(out.is_empty(), "Indeterminate FC must not be peeled");
    assert_eq!(f.buffer_len(), both.len());
}

#[test]
fn drain_overflow_candidate_is_skipped() {
    let mut f = frozen_framer();
    // 0x18 with a corrupt u16 count of 0xFFFF -> response candidate
    // 6 + 65535 = 65541 (> MAX_FRAME_BYTES). The 6-byte request candidate
    // isn't satisfiable with only 4 bytes, so nothing is peeled and no
    // panic occurs on the oversized candidate.
    f.push(&[0x01, 0x18, 0xFF, 0xFF], NOW);
    let out = f.drain_complete();
    assert!(out.is_empty());
    assert_eq!(f.buffer_len(), 4);
}

#[test]
fn drain_after_reset_returns_empty() {
    let mut f = frozen_framer();
    f.push(&frame(&[0x01, 0x03, 0x00, 0x00, 0x00, 0x0A]), NOW);
    f.reset();
    assert!(f.drain_complete().is_empty());
    assert_eq!(f.buffer_len(), 0);
}

// --- laws on concrete values ---------------------------------------------------

#[test]
fn slow_lines_have_long_gaps() {
    assert_eq!(frame_gap(1), 38_500_000);
    assert_eq!(frame_gap(300), 128_333);
    assert_eq!(frame_gap(19201), 1750);
}

#[test]
fn empty_push_changes_nothing() {
    let mut f = Framer::with_gap(10);
    f.push(&[0x01], 5);
    f.push(&[], 900);
    assert_eq!(f.gap_deadline(), Some(15));
    assert_eq!(f.buffer_len(), 1);
}

#[test]
fn deadline_follows_the_last_byte() {
    let mut f = Framer::with_gap(100);
    let req = frame(&[0x01, 0x03, 0x00, 0x00, 0x00, 0x0A]);
    f.push(&req, 10);
    f.push(&[0x01], 20);
    assert_eq!(f.gap_deadline(), Some(120));
    // The rest behind a frame is no older than the bytes that brought it.
    assert_eq!(f.drain_complete().len(), 1);
    assert_eq!(f.gap_deadline(), Some(120));
    f.push(&[], 30);
    assert_eq!(f.gap_deadline(), Some(120));
    f.push(&[0x03], 40);
    assert_eq!(f.gap_deadline(), Some(140));
    f.flush_due();
    assert_eq!(f.gap_deadline(), None);
    f.push(&[0x01], 50);
    f.reset();
    assert_eq!(f.gap_deadline(), None);
    f.push(&[0x01], 60);
    assert_eq!(f.gap_deadline(), Some(160));
}

#[test]
fn draining_loses_no_byte() {
    let mut f = frozen_framer();
    let mut stream = frame(&[0x01, 0x03, 0x00, 0x00, 0x00, 0x0A]);
    stream.extend(frame(&[0x01, 0x03, 0x02, 0x12, 0x34]));
    stream.extend([0x01, 0x08, 0x00, 0x00, 0x55]);
    f.push(&stream, NOW);
    let mut all: Vec<u8> = Vec::new();
    for part in f.drain_complete() {
        all.extend(part);
    }
    assert!(f.drain_complete().is_empty());
    all.extend(f.flush_due());
    assert_eq!(all, stream);
}

#[test]
fn cut_of_the_reads_does_not_matter() {
    let mut stream = frame(&[0x02, 0x10, 0x00, 0x00, 0x00, 0x02, 0x04, 0x00, 0x00, 0x00, 0x01]);
    stream.extend(frame(&[0x02, 0x10, 0x00, 0x00, 0x00, 0x02]));
    stream.extend(frame(&[0x02, 0x83, 0x02]));
    stream.extend([0x09, 0x03]);
    let mut whole = frozen_framer();
    whole.push(&stream, NOW);
    let at_once = whole.drain_complete();
    assert_eq!(at_once.len(), 3);
    for cut in 0..=stream.len() {
        let mut f = frozen_framer();
        f.push(&stream[..cut], NOW);
        let mut got = f.drain_complete();
        f.push(&stream[cut..], NOW);
        got.extend(f.drain_complete());
        assert_eq!(got, at_once);
        assert_eq!(f.flush_due(), vec![0x09, 0x03]);
    }
}

#[test]
fn corrupt_frame_stays_for_the_gap() {
    let mut f = frozen_framer();
    let mut bad = frame(&[0x01, 0x03, 0x00, 0x00, 0x00, 0x0A]);
    bad[3] ^= 0x40;
    f.push(&bad, NOW);
    assert!(f.drain_complete().is_empty());
    assert_eq!(f.flush_due(), bad);
}

#[test]
fn buffer_at_the_limit_has_not_overflowed() {
    let mut f = frozen_framer();
    f.push(&vec![0u8; MAX_FRAME_BYTES], NOW);
    assert!(!f.overflowed());
    f.push(&[0], NOW);
    assert!(f.overflowed());
}
