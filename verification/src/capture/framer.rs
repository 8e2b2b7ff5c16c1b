//! RTU frame assembly from a byte stream.
//!
//! Frame delimiting uses two complementary mechanisms:
//!
//! - **Length-prediction + CRC split (primary)**: [`Framer::drain_complete`]
//!   peels complete frames off the front of the buffer by predicting each
//!   frame's length from its function-code structure and confirming the
//!   boundary with a CRC check. This is what makes coalesced frames (multiple
//!   RTU frames delivered in one `read()`, common on real hardware) split
//!   correctly, since the OS stamps the whole read with a single time and the
//!   inter-frame gap is invisible to timing logic.
//!
//! - **3.5-character inter-frame gap (fallback)**: [`Framer::gap_deadline`]
//!   exposes the deadline at which whatever remains in the buffer (an
//!   indeterminate-function-code frame, a partial frame, or a corrupt frame
//!   that failed CRC) is emitted as a single candidate frame, which becomes a
//!   `ParseFailure` entry if invalid. Nothing is ever discarded.
//!
//! Times are microseconds on a clock that the caller picks.

use vstd::prelude::*;

use crate::protocol::crc;
use crate::protocol::frame;
use crate::protocol::frame::{frame_length_hint, HintModel, LenHint};
use crate::protocol::pdu;
use crate::time::Timestamp;

verus! {

/// Maximum RTU frame size (256 bytes) plus a small margin. If the buffer
/// exceeds this without a frame gap we force a flush, treating the contents as
/// garbage (a parse failure) rather than growing unboundedly.
pub const MAX_FRAME_BYTES: usize = 260;

/// The gap in microseconds: 1.75 ms above 19200 baud, else 38.5 bit times.
pub open spec fn gap_micros(baud: u32) -> int {
    if baud > 19200 {
        1750
    } else {
        38_500_000int / (baud as int)
    }
}

/// Compute the RTU inter-frame gap (3.5 character times) for a baud rate, in
/// microseconds.
///
/// For baud > 19200 the gap is fixed at 1.75 ms; otherwise it is
/// `3.5 × 11 bits / baud` (≈4.0 ms at 9600, 2.0 ms at 19200).
pub fn frame_gap(baud: u32) -> (r: u64)
    requires
        baud > 0,
    ensures
        r == gap_micros(baud),
{
    if baud > 19200 {
        1750
    } else {
        38_500_000 / baud as u64
    }
}

/// Collects bytes until they make frames.
#[derive(Debug)]
pub struct Framer {
    buf: Vec<u8>,
    last_byte_time: u64,
    gap: u64,
}

/// What a [`Framer`] holds: the bytes not yet handed out, when the last of them
/// came, and the gap that ends a frame.
#[verifier::ext_equal]
pub struct FramerModel {
    pub buf: Seq<u8>,
    pub last_byte_time: u64,
    pub gap: u64,
}

impl View for Framer {
    type V = FramerModel;

    closed spec fn view(&self) -> FramerModel {
        FramerModel { buf: self.buf@, last_byte_time: self.last_byte_time, gap: self.gap }
    }
}

/// Whether the first `n` bytes of `buf` are there, are no longer than a frame
/// can be, and are closed by their CRC.
pub open spec fn fits(buf: Seq<u8>, n: usize) -> bool {
    4 <= n <= MAX_FRAME_BYTES && n <= buf.len() && crc::crc_closes(buf.take(n as int))
}

/// The first of `lengths` that fits.
pub open spec fn first_fit(buf: Seq<u8>, lengths: Seq<usize>) -> Option<usize>
    decreases lengths.len(),
{
    if lengths.len() == 0 {
        None
    } else if fits(buf, lengths[0]) {
        Some(lengths[0])
    } else {
        first_fit(buf, lengths.skip(1))
    }
}

/// The length of the complete frame at the front of `buf`, if there is one.
pub open spec fn peel_len(buf: Seq<u8>) -> Option<usize> {
    match frame::length_hint(buf) {
        HintModel::Candidates(c) => first_fit(buf, c),
        _ => None,
    }
}

/// The complete frames that stand one behind the other at the front of `buf`.
pub open spec fn drained_frames(buf: Seq<u8>) -> Seq<Seq<u8>>
    decreases buf.len(),
{
    proof {
        peeled_frame_fits(buf);
    }
    match peel_len(buf) {
        Some(n) => seq![buf.take(n as int)] + drained_frames(buf.skip(n as int)),
        None => Seq::empty(),
    }
}

/// What is left of `buf` behind those frames.
pub open spec fn drained_rest(buf: Seq<u8>) -> Seq<u8>
    decreases buf.len(),
{
    proof {
        peeled_frame_fits(buf);
    }
    match peel_len(buf) {
        Some(n) => drained_rest(buf.skip(n as int)),
        None => buf,
    }
}

/// The bytes of each frame of a list.
pub open spec fn frame_views(frames: Seq<Vec<u8>>) -> Seq<Seq<u8>> {
    Seq::new(frames.len(), |i: int| frames[i]@)
}

/// A framer that has seen nothing yet.
pub open spec fn fresh(gap: u64) -> FramerModel {
    FramerModel { buf: Seq::empty(), last_byte_time: 0, gap }
}

/// The framer after bytes have come. No bytes change nothing.
pub open spec fn pushed(m: FramerModel, bytes: Seq<u8>, now: u64) -> FramerModel {
    if bytes.len() == 0 {
        m
    } else {
        FramerModel { buf: m.buf + bytes, last_byte_time: now, gap: m.gap }
    }
}

/// The framer after the complete frames at the front have been taken off.
pub open spec fn drained(m: FramerModel) -> FramerModel {
    FramerModel { buf: drained_rest(m.buf), ..m }
}

/// The framer after all bytes have been taken off.
pub open spec fn emptied(m: FramerModel) -> FramerModel {
    FramerModel { buf: Seq::empty(), ..m }
}

/// When the bytes in the buffer become a frame by themselves.
pub open spec fn deadline(m: FramerModel) -> Option<int> {
    if m.buf.len() == 0 {
        None
    } else {
        Some(m.last_byte_time + m.gap)
    }
}

proof fn lemma_first_fit(buf: Seq<u8>, lengths: Seq<usize>)
    ensures
        first_fit(buf, lengths) matches Some(n) ==> fits(buf, n),
    decreases lengths.len(),
{
    if lengths.len() > 0 && !fits(buf, lengths[0]) {
        lemma_first_fit(buf, lengths.skip(1));
    }
}

/// A frame that is peeled off fits.
pub proof fn peeled_frame_fits(buf: Seq<u8>)
    ensures
        peel_len(buf) matches Some(n) ==> fits(buf, n),
{
    if let HintModel::Candidates(c) = frame::length_hint(buf) {
        lemma_first_fit(buf, c);
    }
}

/// Check a candidate length.
fn length_fits(buf: &Vec<u8>, n: usize) -> (r: bool)
    ensures
        r == fits(buf@, n),
{
    if n < 4 || n > MAX_FRAME_BYTES || buf.len() < n {
        return false;
    }
    let payload = vstd::slice::slice_subrange(buf.as_slice(), 0, n - 2);
    let stored = crc::from_wire(buf[n - 2], buf[n - 1]);
    assert(buf@.take(n as int).take(n - 2) =~= payload@);
    crc::crc16(payload) == stored
}

/// Find the complete frame at the front of `buf`.
fn peel_length(buf: &Vec<u8>) -> (r: Option<usize>)
    ensures
        r == peel_len(buf@),
{
    match frame_length_hint(buf.as_slice()) {
        LenHint::Candidates(c) => {
            let mut i: usize = 0;
            assert(c@.skip(0) =~= c@);
            while i < c.len()
                invariant
                    i <= c.len(),
                    frame::length_hint(buf@) == HintModel::Candidates(c@),
                    first_fit(buf@, c@) == first_fit(buf@, c@.skip(i as int)),
                decreases c.len() - i,
            {
                if length_fits(buf, c[i]) {
                    return Some(c[i]);
                }
                assert(c@.skip(i as int).skip(1) =~= c@.skip(i + 1));
                i = i + 1;
            }
            None
        },
        _ => None,
    }
}

impl Framer {
    /// A framer with the gap of a baud rate.
    pub fn new(baud: u32) -> (r: Self)
        requires
            baud > 0,
        ensures
            r@ == fresh(gap_micros(baud) as u64),
    {
        Self::with_gap(frame_gap(baud))
    }

    /// A framer with a gap of so many microseconds.
    pub fn with_gap(gap: u64) -> (r: Self)
        ensures
            r@ == fresh(gap),
    {
        Framer { buf: Vec::new(), last_byte_time: 0, gap }
    }

    /// Append received bytes, recording `now` as the time of the last byte.
    pub fn push(&mut self, bytes: &[u8], now: u64)
        ensures
            final(self)@ == pushed(old(self)@, bytes@, now),
    {
        if bytes.is_empty() {
            return;
        }
        let ghost before = self.buf@;
        self.buf.extend_from_slice(bytes);
        assert(self.buf@ =~= before + bytes@);
        self.last_byte_time = now;
    }

    /// Deadline at which the current buffer becomes a complete frame, or
    /// `None` when the buffer is empty (so the read loop can use a pending
    /// future instead of a past deadline and avoid a busy loop).
    pub fn gap_deadline(&self) -> (r: Option<u64>)
        requires
            deadline(self@) matches Some(t) ==> t <= u64::MAX,
        ensures
            r is None <==> deadline(self@) is None,
            r matches Some(t) ==> deadline(self@) == Some(t as int),
    {
        if self.buf.len() == 0 {
            None
        } else {
            Some(self.last_byte_time + self.gap)
        }
    }

    /// Emit the accumulated bytes as a candidate frame and clear the buffer.
    pub fn flush_due(&mut self) -> (r: Vec<u8>)
        ensures
            r@ == old(self)@.buf,
            final(self)@ == emptied(old(self)@),
    {
        let mut out: Vec<u8> = Vec::new();
        core::mem::swap(&mut self.buf, &mut out);
        out
    }

    /// Peel all complete, CRC-valid frames off the front of the buffer.
    ///
    /// This is the primary frame-delimiting mechanism. Real serial stacks
    /// routinely deliver bytes from multiple RTU frames in a single `read()`
    /// (all stamped with one time), so the inter-frame time gap is invisible to
    /// the gap-timer logic. Instead we predict each frame's length from its
    /// function-code structure (`frame_length_hint`) and confirm the boundary
    /// with a CRC check, greedily consuming one frame at a time.
    ///
    /// Any indeterminate / partial / CRC-failing tail is left in the buffer for
    /// the gap timer to flush as a single parse-failure entry (so nothing is
    /// ever discarded). The returned vectors are already CRC-validated; callers
    /// re-validate via `ModbusFrame::from_bytes` harmlessly.
    pub fn drain_complete(&mut self) -> (r: Vec<Vec<u8>>)
        ensures
            frame_views(r@) == drained_frames(old(self)@.buf),
            final(self)@ == drained(old(self)@),
    {
        let mut out: Vec<Vec<u8>> = Vec::new();
        let mut rest: Vec<u8> = Vec::new();
        core::mem::swap(&mut self.buf, &mut rest);
        let ghost all = rest@;
        assert(frame_views(out@) + drained_frames(rest@) =~= drained_frames(all));
        loop
            invariant
                drained_frames(all) == frame_views(out@) + drained_frames(rest@),
                drained_rest(all) == drained_rest(rest@),
            ensures
                peel_len(rest@) is None,
            decreases rest@.len(),
        {
            let n: usize = match peel_length(&rest) {
                Some(n) => n,
                None => {
                    break;
                },
            };
            proof {
                peeled_frame_fits(rest@);
            }
            let ghost before = rest@;
            let ghost done = frame_views(out@);
            let tail = rest.split_off(n);
            out.push(rest);
            rest = tail;
            proof {
                assert(rest@ =~= before.skip(n as int));
                assert(frame_views(out@) =~= done.push(before.take(n as int)));
                assert(frame_views(out@) + drained_frames(rest@) =~= done + drained_frames(before));
            }
        }
        self.buf = rest;
        assert(frame_views(out@) =~= drained_frames(all));
        out
    }

    /// Whether the buffer has grown past the safety limit and should be
    /// force-flushed.
    pub fn overflowed(&self) -> (r: bool)
        ensures
            r == (self@.buf.len() > MAX_FRAME_BYTES),
    {
        self.buf.len() > MAX_FRAME_BYTES
    }

    /// How many bytes wait in the buffer.
    pub fn buffer_len(&self) -> (r: usize)
        ensures
            r == self@.buf.len(),
    {
        self.buf.len()
    }

    /// Reset internal state (used on Stop).
    pub fn reset(&mut self)
        ensures
            final(self)@ == emptied(old(self)@),
    {
        self.buf.clear();
    }
}

// --- laws --------------------------------------------------------------------

/// Draining discards nothing: the frames handed out and what is left in the
/// buffer are, put together, the bytes that were in it.
pub proof fn draining_keeps_every_byte(buf: Seq<u8>)
    ensures
        drained_frames(buf).flatten() + drained_rest(buf) == buf,
    decreases buf.len(),
{
    peeled_frame_fits(buf);
    if let Some(n) = peel_len(buf) {
        let head = buf.take(n as int);
        let tail = buf.skip(n as int);
        draining_keeps_every_byte(tail);
        let frames = drained_frames(buf);
        assert(frames.first() == head);
        assert(frames.drop_first() =~= drained_frames(tail));
        assert(frames.flatten() == head + drained_frames(tail).flatten());
        assert(frames.flatten() + drained_rest(buf) =~= head + (drained_frames(tail).flatten()
            + drained_rest(tail)));
        assert(head + tail =~= buf);
    } else {
        assert(drained_frames(buf).flatten() =~= Seq::<u8>::empty());
        assert(Seq::<u8>::empty() + buf =~= buf);
    }
}

/// Every frame handed out by draining is accepted as a frame, whatever time it
/// is given, and is no longer than a frame can be.
pub proof fn drained_frames_are_accepted(buf: Seq<u8>, i: int, timestamp: Timestamp)
    requires
        0 <= i < drained_frames(buf).len(),
    ensures
        drained_frames(buf)[i].len() <= MAX_FRAME_BYTES,
        frame::frame_of(drained_frames(buf)[i], timestamp) is Ok,
    decreases buf.len(),
{
    peeled_frame_fits(buf);
    if let Some(n) = peel_len(buf) {
        if i > 0 {
            drained_frames_are_accepted(buf.skip(n as int), i - 1, timestamp);
        }
    }
}

/// Draining leaves nothing that draining again would hand out.
pub proof fn draining_is_complete(buf: Seq<u8>)
    ensures
        drained_frames(drained_rest(buf)).len() == 0,
        drained_rest(drained_rest(buf)) == drained_rest(buf),
    decreases buf.len(),
{
    peeled_frame_fits(buf);
    if let Some(n) = peel_len(buf) {
        draining_is_complete(buf.skip(n as int));
    }
}

/// What can be done to a framer.
#[verifier::ext_equal]
pub enum Operation {
    Push(Seq<u8>, u64),
    Drain,
    Flush,
    Reset,
}

/// The framer after an operation.
pub open spec fn after_operation(m: FramerModel, op: Operation) -> FramerModel {
    match op {
        Operation::Push(bytes, now) => pushed(m, bytes, now),
        Operation::Drain => drained(m),
        Operation::Flush => emptied(m),
        Operation::Reset => emptied(m),
    }
}

/// The framer after operations one after another.
pub open spec fn after_operations(m: FramerModel, ops: Seq<Operation>) -> FramerModel
    decreases ops.len(),
{
    if ops.len() == 0 {
        m
    } else {
        after_operation(after_operations(m, ops.drop_last()), ops.last())
    }
}

/// When the last byte came, if any did.
pub open spec fn last_byte_at(ops: Seq<Operation>) -> Option<u64>
    decreases ops.len(),
{
    if ops.len() == 0 {
        None
    } else {
        match ops.last() {
            Operation::Push(bytes, now) if bytes.len() > 0 => Some(now),
            _ => last_byte_at(ops.drop_last()),
        }
    }
}

/// Whatever is done to a framer, and in whatever order, there is a deadline
/// exactly while bytes wait, and it is the gap behind the last byte that came.
pub proof fn deadline_follows_the_last_byte(gap: u64, ops: Seq<Operation>)
    ensures
        ({
            let m = after_operations(fresh(gap), ops);
            &&& deadline(m) is None <==> m.buf.len() == 0
            &&& deadline(m) matches Some(t) ==> last_byte_at(ops) is Some && t == last_byte_at(
                ops,
            ).unwrap() + gap
        }),
{
    lemma_last_byte_time(gap, ops);
}

proof fn lemma_last_byte_time(gap: u64, ops: Seq<Operation>)
    ensures
        ({
            let m = after_operations(fresh(gap), ops);
            &&& m.gap == gap
            &&& m.buf.len() > 0 ==> last_byte_at(ops) == Some(m.last_byte_time)
        }),
    decreases ops.len(),
{
    if ops.len() > 0 {
        lemma_last_byte_time(gap, ops.drop_last());
        draining_keeps_every_byte(after_operations(fresh(gap), ops.drop_last()).buf);
    }
}

proof fn lemma_fits_is_stable(a: Seq<u8>, b: Seq<u8>, n: usize)
    requires
        n <= a.len(),
    ensures
        fits(a + b, n) == fits(a, n),
{
    assert((a + b).take(n as int) =~= a.take(n as int));
}

/// A frame once found is not unsettled by the bytes that follow it.
pub proof fn peeling_is_stable(a: Seq<u8>, b: Seq<u8>)
    requires
        peel_len(a) is Some,
    ensures
        peel_len(a + b) == peel_len(a),
{
    let ab = a + b;
    let n = peel_len(a).unwrap();
    peeled_frame_fits(a);
    lemma_fits_is_stable(a, b, n);
    assert(forall|k: int| 0 <= k < a.len() ==> ab[k] == a[k]);
    assert(pdu::be16(ab, 2) == pdu::be16(a, 2));
    frame::candidates_ascend(a);
    frame::candidates_ascend(ab);
    if let HintModel::Candidates(c) = frame::length_hint(a) {
        reveal_with_fuel(first_fit, 3);
        assert(c[0] <= n);
        lemma_fits_is_stable(a, b, c[0]);
        let d = frame::length_hint(ab)->Candidates_0;
        assert(d[0] == c[0]);
        if c.len() > 1 {
            assert(d =~= c);
        }
    }
}

/// How the stream is cut into reads does not matter: draining after each of two
/// reads hands out the same frames, and leaves the same rest, as draining once
/// after both.
pub proof fn reads_may_be_cut_anywhere(a: Seq<u8>, b: Seq<u8>)
    ensures
        drained_frames(a + b) == drained_frames(a) + drained_frames(drained_rest(a) + b),
        drained_rest(a + b) == drained_rest(drained_rest(a) + b),
    decreases a.len(),
{
    peeled_frame_fits(a);
    peeled_frame_fits(a + b);
    if let Some(n) = peel_len(a) {
        peeling_is_stable(a, b);
        let tail = a.skip(n as int);
        reads_may_be_cut_anywhere(tail, b);
        assert((a + b).skip(n as int) =~= tail + b);
        assert((a + b).take(n as int) =~= a.take(n as int));
        assert(drained_frames(a + b) =~= drained_frames(a) + drained_frames(drained_rest(a) + b));
    } else {
        assert(drained_frames(a + b) =~= drained_frames(a) + drained_frames(drained_rest(a) + b));
    }
}

proof fn lemma_least_fit(buf: Seq<u8>, c: Seq<usize>, i: int)
    requires
        0 <= i < c.len(),
        fits(buf, c[i]),
        forall|k: int| 0 <= k < i ==> !fits(buf, #[trigger] c[k]),
    ensures
        first_fit(buf, c) == Some(c[i]),
    decreases i,
{
    if i > 0 {
        assert(!fits(buf, c[0]));
        lemma_least_fit(buf, c.skip(1), i - 1);
    }
}

/// Coalesced frames split: a frame whose PDU decodes (or that is a request
/// without values) is handed out first and by itself, whatever follows it in
/// the buffer, unless a shorter candidate length happens to be closed by a CRC
/// as well. (Function codes without a predictable length are left to the gap
/// timer.)
pub proof fn coalesced_frame_is_split_off(a: Seq<u8>, b: Seq<u8>, role: pdu::Role)
    requires
        4 <= a.len() <= MAX_FRAME_BYTES,
        crc::crc_closes(a),
        !(pdu::decode(role, a[1], a.subrange(2, a.len() - 2)) is Raw) || pdu::is_bare_request(
            a[1],
            a.subrange(2, a.len() - 2),
        ),
        a[1] != 0x08 && a[1] != 0x2B,
        no_shorter_fit(a, b),
    ensures
        drained_frames(a + b) == seq![a] + drained_frames(b),
        drained_rest(a + b) == drained_rest(b),
{
    frame::decoded_length_is_predicted(a, b, role);
    if let HintModel::Candidates(c) = frame::length_hint(a + b) {
        let i = choose|i: int| 0 <= i < c.len() && c[i] == a.len();
        lemma_split_off(a, b, c, i);
    }
}

/// Whether no candidate length of `a` followed by `b` that is shorter than `a`
/// fits.
pub open spec fn no_shorter_fit(a: Seq<u8>, b: Seq<u8>) -> bool {
    match frame::length_hint(a + b) {
        HintModel::Candidates(c) => forall|i: int|
            0 <= i < c.len() && c[i] < a.len() ==> !fits(a, #[trigger] c[i]),
        _ => true,
    }
}

proof fn lemma_split_off(a: Seq<u8>, b: Seq<u8>, c: Seq<usize>, i: int)
    requires
        4 <= a.len() <= MAX_FRAME_BYTES,
        crc::crc_closes(a),
        frame::length_hint(a + b) == HintModel::Candidates(c),
        no_shorter_fit(a, b),
        0 <= i < c.len(),
        c[i] == a.len(),
    ensures
        drained_frames(a + b) == seq![a] + drained_frames(b),
        drained_rest(a + b) == drained_rest(b),
{
    let ab = a + b;
    let n = a.len() as usize;
    assert(ab.take(n as int) =~= a);
    assert(ab.skip(n as int) =~= b);
    frame::candidates_ascend(ab);
    assert forall|k: int| 0 <= k < i implies !fits(ab, #[trigger] c[k]) by {
        assert(c[k] < n);
        assert(ab.take(c[k] as int) =~= a.take(c[k] as int));
    }
    lemma_least_fit(ab, c, i);
}

/// The gap is three and a half characters of eleven bits at the baud rate, in
/// whole microseconds, and 1.75 ms above 19200 baud.
pub proof fn gap_is_three_and_a_half_characters(baud: u32)
    requires
        baud > 0,
    ensures
        baud > 19200 ==> gap_micros(baud) == 1750,
        baud <= 19200 ==> gap_micros(baud) * baud <= 38_500_000 < (gap_micros(baud) + 1) * baud,
        0 < gap_micros(baud) <= u64::MAX,
{
    let b = baud as int;
    let q = 38_500_000int / b;
    assert(q * b <= 38_500_000 < (q + 1) * b && 0 <= q <= 38_500_000) by (nonlinear_arith)
        requires
            b > 0,
            q == 38_500_000int / b,
    ;
    if baud <= 19200 {
        assert(q > 0) by (nonlinear_arith)
            requires
                38_500_000 < (q + 1) * b,
                b <= 19200,
                b > 0,
                q >= 0,
        ;
    }
}

/// Whatever is peeled off is long enough for a frame and no longer than one, is
/// all there, and ends in the CRC of the bytes before it, low byte first.
pub proof fn peeled_frame_ends_in_its_crc(buf: Seq<u8>)
    ensures
        peel_len(buf) matches Some(n) ==> 4 <= n <= 260 && n <= buf.len() && buf.subrange(
            n - 2,
            n as int,
        ) == seq![
            (crc::crc_of(buf.take(n - 2)) % 256) as u8,
            (crc::crc_of(buf.take(n - 2)) / 256) as u8,
        ],
{
    peeled_frame_fits(buf);
    if let Some(n) = peel_len(buf) {
        let front = buf.take(n as int);
        crc::closing_bytes_are_the_crc(front);
        assert(front.take(front.len() - 2) =~= buf.take(n - 2));
        let c = crc::crc_of(buf.take(n - 2));
        assert(front.subrange(n - 2, n as int) =~= crc::crc_wire(c));
        assert(buf.subrange(n - 2, n as int) =~= front.subrange(n - 2, n as int));
    }
}

/// Bytes that come are appended, and their time is taken; none change nothing.
/// Draining, flushing and resetting leave the time and the gap as they are.
pub proof fn operations_touch_only_the_buffer(m: FramerModel, bytes: Seq<u8>, now: u64)
    ensures
        bytes.len() > 0 ==> pushed(m, bytes, now).buf == m.buf + bytes && pushed(
            m,
            bytes,
            now,
        ).last_byte_time == now && pushed(m, bytes, now).gap == m.gap,
        bytes.len() == 0 ==> pushed(m, bytes, now) == m,
        drained(m).buf == drained_rest(m.buf),
        drained(m).last_byte_time == m.last_byte_time,
        drained(m).gap == m.gap,
        emptied(m).buf.len() == 0,
        emptied(m).last_byte_time == m.last_byte_time,
        emptied(m).gap == m.gap,
{
}

/// A length fits exactly if so many bytes are there, no more than a frame can have,
/// and they are accepted as a frame.
pub proof fn only_frames_fit(buf: Seq<u8>, n: usize, timestamp: Timestamp)
    ensures
        fits(buf, n) <==> n <= 260 && n <= buf.len() && frame::frame_of(
            buf.take(n as int),
            timestamp,
        ) is Ok,
{
}

/// Of the lengths that are predicted the shortest that fits is peeled off, and none
/// only where none fits. Without a prediction nothing is peeled off.
pub proof fn shortest_fit_is_peeled(buf: Seq<u8>)
    ensures
        match frame::length_hint(buf) {
            HintModel::Candidates(c) => match peel_len(buf) {
                Some(n) => c.contains(n) && fits(buf, n) && (forall|k: int|
                    0 <= k < c.len() && fits(buf, #[trigger] c[k]) ==> n <= c[k]),
                None => forall|k: int| 0 <= k < c.len() ==> !fits(buf, #[trigger] c[k]),
            },
            _ => peel_len(buf) is None,
        },
{
    if let HintModel::Candidates(c) = frame::length_hint(buf) {
        frame::candidates_ascend(buf);
        frame::prediction_is_sound(buf);
        reveal_with_fuel(first_fit, 3);
        assert(c.len() == 1 || c.len() == 2);
        if c.len() == 2 {
            assert(c.skip(1)[0] == c[1]);
            assert(c[0] < c[1]);
        }
        if let Some(n) = peel_len(buf) {
            assert(n == c[0] || c.len() == 2 && n == c[1]);
        }
    }
}

/// Frames are taken off one after another: as long as one can be peeled off, it is the
/// next one, and the rest goes on behind it.
pub proof fn draining_goes_frame_by_frame(buf: Seq<u8>)
    ensures
        match peel_len(buf) {
            Some(n) => drained_frames(buf) == seq![buf.take(n as int)] + drained_frames(
                buf.skip(n as int),
            ) && drained_rest(buf) == drained_rest(buf.skip(n as int)),
            None => drained_frames(buf).len() == 0 && drained_rest(buf) == buf,
        },
{
}

} // verus!
