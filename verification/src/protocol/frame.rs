//! Modbus RTU frame validation.
//!
//! An RTU frame is `[slave(1)][function(1)][data...][crc_lo(1)][crc_hi(1)]`,
//! where the CRC covers everything except itself and is stored
//! little-endian. The minimum frame length is 4 bytes (slave + function +
//! 2 CRC bytes).

use vstd::prelude::*;

use crate::protocol::crc;
use crate::protocol::pdu;
use crate::text;
use crate::time::Timestamp;

verus! {

broadcast use vstd::string::group_string_axioms;

/// A raw byte-level error encountered while splitting an RTU frame.
#[derive(Debug, PartialEq, Eq)]
pub enum ParseError {
    /// Fewer than 4 bytes: cannot contain slave + function + CRC.
    TooShort { len: usize },
    /// CRC mismatch. Carries the raw bytes so the UI can still show them.
    BadCrc { raw: Vec<u8>, expected: u16, computed: u16 },
}

/// A validated Modbus RTU frame.
#[derive(Debug)]
pub struct ModbusFrame {
    /// The complete raw bytes including slave, function, data and CRC.
    pub raw: Vec<u8>,
    pub slave: u8,
    pub function: u8,
    /// PDU data bytes (everything between function and CRC).
    pub data: Vec<u8>,
    /// When the frame was received (wall-clock, for display + timeout math).
    pub timestamp: Timestamp,
}

/// What a [`ParseError`] holds.
#[verifier::ext_equal]
pub enum ParseErrorModel {
    TooShort { len: nat },
    BadCrc { raw: Seq<u8>, expected: u16, computed: u16 },
}

/// What a [`ModbusFrame`] holds.
#[verifier::ext_equal]
pub struct FrameModel {
    pub raw: Seq<u8>,
    pub slave: u8,
    pub function: u8,
    pub data: Seq<u8>,
    pub timestamp: Timestamp,
}

impl View for ParseError {
    type V = ParseErrorModel;

    open spec fn view(&self) -> ParseErrorModel {
        match *self {
            ParseError::TooShort { len } => ParseErrorModel::TooShort { len: len as nat },
            ParseError::BadCrc { raw, expected, computed } => ParseErrorModel::BadCrc {
                raw: raw@,
                expected,
                computed,
            },
        }
    }
}

impl View for ModbusFrame {
    type V = FrameModel;

    open spec fn view(&self) -> FrameModel {
        FrameModel {
            raw: self.raw@,
            slave: self.slave,
            function: self.function,
            data: self.data@,
            timestamp: self.timestamp,
        }
    }
}

/// What a sequence of bytes is as an RTU frame: too short below four bytes, a
/// CRC mismatch where the last two bytes are not the CRC of the others, and
/// otherwise a frame whose parts are read off in place.
pub open spec fn frame_of(raw: Seq<u8>, timestamp: Timestamp) -> Result<
    FrameModel,
    ParseErrorModel,
> {
    if raw.len() < 4 {
        Err(ParseErrorModel::TooShort { len: raw.len() })
    } else if !crc::crc_closes(raw) {
        Err(
            ParseErrorModel::BadCrc {
                raw,
                expected: crc::le16(raw[raw.len() - 2], raw[raw.len() - 1]),
                computed: crc::crc_of(raw.take(raw.len() - 2)),
            },
        )
    } else {
        Ok(
            FrameModel {
                raw,
                slave: raw[0],
                function: raw[1],
                data: raw.subrange(2, raw.len() - 2),
                timestamp,
            },
        )
    }
}

/// A result seen through the views of its two sides.
pub open spec fn parse_result(r: Result<ModbusFrame, ParseError>) -> Result<
    FrameModel,
    ParseErrorModel,
> {
    match r {
        Ok(f) => Ok(f@),
        Err(e) => Err(e@),
    }
}

/// The reason line of a failure.
pub open spec fn reason_text(e: ParseErrorModel) -> Seq<char> {
    match e {
        ParseErrorModel::TooShort { len } => "Truncated frame ("@ + text::dec_text(len)
            + " bytes, need ≥4)"@,
        ParseErrorModel::BadCrc { expected, computed, .. } => "Bad CRC (expected 0x"@
            + text::hex_fixed(expected as nat, 4) + ", computed 0x"@ + text::hex_fixed(
            computed as nat,
            4,
        ) + ")"@,
    }
}

impl ParseError {
    /// Human-readable reason line (used verbatim in the `  Error: <reason>`
    /// display line).
    pub fn reason(&self) -> (r: String)
        ensures
            r@ == reason_text(self@),
    {
        match self {
            ParseError::TooShort { len } => String::from_str("Truncated frame (").concat(
                text::dec(*len as u64).as_str(),
            ).concat(" bytes, need ≥4)"),
            ParseError::BadCrc { expected, computed, .. } => String::from_str(
                "Bad CRC (expected 0x",
            ).concat(text::hex4(*expected).as_str()).concat(", computed 0x").concat(
                text::hex4(*computed).as_str(),
            ).concat(")"),
        }
    }

    /// The raw bytes associated with the failure (for display).
    pub fn raw(&self) -> (r: &[u8])
        ensures
            r@ == match self@ {
                ParseErrorModel::TooShort { .. } => Seq::empty(),
                ParseErrorModel::BadCrc { raw, .. } => raw,
            },
    {
        match self {
            ParseError::TooShort { .. } => &[],
            ParseError::BadCrc { raw, .. } => raw.as_slice(),
        }
    }
}

impl Clone for ParseError {
    fn clone(&self) -> (r: Self)
        ensures
            r@ == self@,
    {
        match self {
            ParseError::TooShort { len } => ParseError::TooShort { len: *len },
            ParseError::BadCrc { raw, expected, computed } => {
                let copy = raw.clone();
                assert(copy@ =~= raw@);
                ParseError::BadCrc { raw: copy, expected: *expected, computed: *computed }
            },
        }
    }
}

impl Clone for ModbusFrame {
    fn clone(&self) -> (r: Self)
        ensures
            r@ == self@,
    {
        let raw = self.raw.clone();
        let data = self.data.clone();
        assert(raw@ =~= self.raw@);
        assert(data@ =~= self.data@);
        ModbusFrame {
            raw,
            slave: self.slave,
            function: self.function,
            data,
            timestamp: self.timestamp,
        }
    }
}

impl ModbusFrame {
    /// Validate `raw` as an RTU frame.
    ///
    /// Returns `Err(ParseError::TooShort)` if shorter than 4 bytes,
    /// `Err(ParseError::BadCrc)` if the CRC check fails (the raw bytes are
    /// carried along so the caller can still display them), or `Ok` with the
    /// parsed frame.
    pub fn from_bytes(raw: Vec<u8>, timestamp: Timestamp) -> (r: Result<Self, ParseError>)
        ensures
            parse_result(r) == frame_of(raw@, timestamp),
    {
        if raw.len() < 4 {
            return Err(ParseError::TooShort { len: raw.len() });
        }
        let split: usize = raw.len() - 2;
        let payload = vstd::slice::slice_subrange(raw.as_slice(), 0, split);
        assert(payload@ =~= raw@.take(raw@.len() - 2));
        let computed = crc::crc16(payload);
        let expected = crc::from_wire(raw[split], raw[split + 1]);
        if computed != expected {
            return Err(ParseError::BadCrc { raw, expected, computed });
        }
        let slave = raw[0];
        let function = raw[1];
        let data = vstd::slice::slice_to_vec(
            vstd::slice::slice_subrange(raw.as_slice(), 2, split),
        );
        Ok(ModbusFrame { raw, slave, function, data, timestamp })
    }
}

/// Outcome of predicting a frame's total length from a buffer prefix.
///
/// Used by the framer to split coalesced RTU frames proactively: when bytes
/// from multiple frames arrive in a single `read()` (common on real hardware),
/// the inter-frame time gap is undetectable, so we fall back to structural
/// length prediction plus a CRC check to find each frame boundary.
#[derive(Debug, PartialEq, Eq)]
pub enum LenHint {
    /// Need at least this many bytes before a length can be predicted.
    NeedMore(usize),
    /// One or more candidate total frame lengths (including the 2 CRC bytes),
    /// ascending and de-duplicated. The caller validates each via CRC and
    /// consumes the first that matches.
    Candidates(Vec<usize>),
    /// The function code admits no self-describing length (e.g. 0x08
    /// Diagnostics, 0x2B Encapsulated Interface, unknown FCs). Fall back to
    /// gap-timeout framing.
    Indeterminate,
}

/// What a [`LenHint`] holds.
#[verifier::ext_equal]
pub enum HintModel {
    NeedMore(nat),
    Candidates(Seq<usize>),
    Indeterminate,
}

impl View for LenHint {
    type V = HintModel;

    open spec fn view(&self) -> HintModel {
        match *self {
            LenHint::NeedMore(n) => HintModel::NeedMore(n as nat),
            LenHint::Candidates(c) => HintModel::Candidates(c@),
            LenHint::Indeterminate => HintModel::Indeterminate,
        }
    }
}

impl Clone for LenHint {
    fn clone(&self) -> (r: Self)
        ensures
            r@ == self@,
    {
        match self {
            LenHint::NeedMore(n) => LenHint::NeedMore(*n),
            LenHint::Candidates(c) => {
                let copy = c.clone();
                assert(copy@ =~= c@);
                LenHint::Candidates(copy)
            },
            LenHint::Indeterminate => LenHint::Indeterminate,
        }
    }
}

/// One length.
pub open spec fn one_length(a: int) -> HintModel {
    HintModel::Candidates(seq![a as usize])
}

/// Two lengths in ascending order, or one where they are the same.
pub open spec fn two_lengths(a: int, b: int) -> HintModel {
    HintModel::Candidates(
        if a < b {
            seq![a as usize, b as usize]
        } else if b < a {
            seq![b as usize, a as usize]
        } else {
            seq![a as usize]
        },
    )
}

/// The total length of a frame whose data is a byte count and that many bytes.
pub open spec fn counted_length(buf: Seq<u8>) -> int {
    5 + buf[2]
}

/// The lengths that a frame at the front of `buf` can have, as far as its
/// function code and the counts that have arrived tell.
pub open spec fn length_hint(buf: Seq<u8>) -> HintModel {
    if buf.len() < 2 {
        HintModel::NeedMore(2)
    } else if buf.len() < 4 {
        HintModel::NeedMore(4)
    } else if buf[1] & 0x80 != 0 {
        one_length(5)
    } else {
        match buf[1] {
            0x01 | 0x02 | 0x03 | 0x04 => two_lengths(8, counted_length(buf)),
            0x05 | 0x06 => one_length(8),
            0x07 => two_lengths(4, 5),
            0x0B => two_lengths(4, 8),
            0x0C | 0x11 => two_lengths(4, counted_length(buf)),
            0x0F | 0x10 => if buf.len() >= 7 {
                two_lengths(8, 9 + buf[6])
            } else {
                one_length(8)
            },
            0x14 | 0x15 => one_length(counted_length(buf)),
            0x16 => one_length(10),
            0x17 => if buf.len() >= 11 {
                two_lengths(counted_length(buf), 13 + buf[10])
            } else {
                one_length(counted_length(buf))
            },
            0x18 => two_lengths(6, 6 + pdu::be16(buf, 2)),
            _ => HintModel::Indeterminate,
        }
    }
}

fn one(a: usize) -> (r: LenHint)
    ensures
        r@ == one_length(a as int),
{
    let c: Vec<usize> = vec![a];
    assert(c@ =~= seq![a]);
    LenHint::Candidates(c)
}

fn two(a: usize, b: usize) -> (r: LenHint)
    ensures
        r@ == two_lengths(a as int, b as int),
{
    let c: Vec<usize> = if a < b {
        vec![a, b]
    } else if b < a {
        vec![b, a]
    } else {
        vec![a]
    };
    assert(HintModel::Candidates(c@) =~= two_lengths(a as int, b as int));
    LenHint::Candidates(c)
}

/// Predict candidate total frame lengths (incl. CRC) from a buffer prefix.
///
/// The frame layout is `[slave(1)][function(1)][data(L)][crc_lo][crc_hi]`,
/// so `total = L + 4` and `data = buf[2 .. len-2]`, i.e. `data[k] == buf[k+2]`.
///
/// Lengths are derived from the per-function-code structure as accepted by
/// [`crate::protocol::pdu::parse_pdu`]. For function codes where the request
/// and response have different layouts, all shape-compatible candidates are
/// returned; the framer disambiguates by CRC. For function codes whose length
/// cannot be determined from a prefix (variable-length with no byte-count
/// field), [`LenHint::Indeterminate`] is returned.
pub fn frame_length_hint(buf: &[u8]) -> (r: LenHint)
    ensures
        r@ == length_hint(buf@),
{
    if buf.len() < 2 {
        return LenHint::NeedMore(2);
    }
    if buf.len() < 4 {
        return LenHint::NeedMore(4);
    }
    let fc = buf[1];
    // Exception response: slave + function + exception(1) + crc(2) = 5.
    if fc & 0x80 != 0 {
        return one(5);
    }
    let counted: usize = 5 + buf[2] as usize;
    match fc {
        // Request: data=4 -> total 8. Response: total = 5 + buf[2].
        0x01 | 0x02 | 0x03 | 0x04 => two(8, counted),
        // Request and response both: data=4 -> total 8.
        0x05 | 0x06 => one(8),
        // Request: data=0 -> total 4. Response: data=1 -> total 5.
        0x07 => two(4, 5),
        // Request: data=0 -> total 4. Response: data=4 -> total 8.
        0x0B => two(4, 8),
        // Request: data=0 -> total 4. Response: total = 5 + buf[2].
        0x0C | 0x11 => two(4, counted),
        // Response: data=4 -> total 8. Request: the byte count at buf[6]
        // follows start and count -> total = 9 + buf[6].
        0x0F | 0x10 => if buf.len() >= 7 {
            two(8, 9 + buf[6] as usize)
        } else {
            one(8)
        },
        // A byte count at buf[2] and that many bytes -> total = 5 + buf[2].
        0x14 | 0x15 => one(counted),
        // Request and response both: data=6 -> total 10.
        0x16 => one(10),
        // Response: total = 5 + buf[2]. Request: the byte count at buf[10]
        // follows both starts and counts -> total = 13 + buf[10].
        0x17 => if buf.len() >= 11 {
            two(counted, 13 + buf[10] as usize)
        } else {
            one(counted)
        },
        // Request: data=2 -> total 6. Response: a count of two bytes at buf[2]
        // and that many bytes -> total = 6 + count.
        0x18 => {
            let count = 256 * (buf[2] as usize) + (buf[3] as usize);
            two(6, 6 + count)
        },
        // Diagnostics, Encapsulated Interface and unknown function codes carry
        // no self-describing length.
        _ => LenHint::Indeterminate,
    }
}

/// Candidate lengths come in strictly ascending order, and there is at least
/// one of them.
pub proof fn candidates_ascend(buf: Seq<u8>)
    ensures
        length_hint(buf) matches HintModel::Candidates(c) ==> c.len() > 0 && (forall|i: int, j: int|
            0 <= i < j < c.len() ==> c[i] < c[j]),
{
}

/// Bytes closed by their CRC are a frame that keeps all of them: what
/// `append_crc` makes of two bytes or more is accepted, and slave, function and
/// data are found again.
pub proof fn built_frame_is_accepted(payload: Seq<u8>, timestamp: Timestamp)
    requires
        payload.len() >= 2,
    ensures
        frame_of(payload + crc::crc_wire(crc::crc_of(payload)), timestamp) == Ok::<
            FrameModel,
            ParseErrorModel,
        >(
            (FrameModel {
                raw: payload + crc::crc_wire(crc::crc_of(payload)),
                slave: payload[0],
                function: payload[1],
                data: payload.skip(2),
                timestamp,
            }),
        ),
{
    let raw = payload + crc::crc_wire(crc::crc_of(payload));
    crc::appended_crc_closes(payload);
    assert(raw.subrange(2, raw.len() - 2) =~= payload.skip(2));
}

/// A frame has exactly one rendering: its raw bytes are its slave, function and
/// data followed by their CRC.
pub proof fn frame_holds_all_bytes(raw: Seq<u8>, timestamp: Timestamp)
    ensures
        frame_of(raw, timestamp) matches Ok(f) ==> f.raw == raw && raw == seq![f.slave, f.function]
            + f.data + crc::crc_wire(crc::crc_of(seq![f.slave, f.function] + f.data)),
{
    if raw.len() >= 4 && crc::crc_closes(raw) {
        crc::closing_bytes_are_the_crc(raw);
        let body = raw.take(raw.len() - 2);
        assert(body =~= seq![raw[0], raw[1]] + raw.subrange(2, raw.len() - 2));
    }
}

/// The prediction covers whatever the decoder accepts: where `frame` holds a
/// PDU that decodes in some role, or a request without values, its length is
/// among the candidates, whatever bytes follow it in the buffer, unless the
/// function code admits no prediction.
pub proof fn decoded_length_is_predicted(frame: Seq<u8>, tail: Seq<u8>, role: pdu::Role)
    requires
        frame.len() >= 4,
        !(pdu::decode(role, frame[1], frame.subrange(2, frame.len() - 2)) is Raw)
            || pdu::is_bare_request(frame[1], frame.subrange(2, frame.len() - 2)),
    ensures
        match length_hint(frame + tail) {
            HintModel::Candidates(c) => exists|i: int| 0 <= i < c.len() && c[i] == frame.len(),
            HintModel::Indeterminate => frame[1] == 0x08 || frame[1] == 0x2B,
            HintModel::NeedMore(_) => false,
        },
{
    let buf = frame + tail;
    let d = frame.subrange(2, frame.len() - 2);
    assert(buf[1] == frame[1]);
    assert(0x07u8 & 0x80 == 0 && 0x0Bu8 & 0x80 == 0 && 0x0Cu8 & 0x80 == 0 && 0x11u8 & 0x80 == 0
        && 0x18u8 & 0x80 == 0) by (bit_vector);
    assert(forall|k: int| 0 <= k < d.len() ==> d[k] == buf[k + 2]);
    if let HintModel::Candidates(c) = length_hint(buf) {
        if frame[1] & 0x80 != 0 {
            assert(c[0] == frame.len());
        } else if frame[1] == 0x0F || frame[1] == 0x10 {
            if d.len() > 4 {
                assert(d[4] == buf[6]);
            }
            assert(c[0] == frame.len() || c.len() > 1 && c[1] == frame.len());
        } else if frame[1] == 0x17 {
            assert(d[0] == buf[2]);
            if d.len() >= 9 {
                assert(d[8] == buf[10]);
            }
            assert(c[0] == frame.len() || c.len() > 1 && c[1] == frame.len());
        } else if frame[1] == 0x18 {
            assert(pdu::be16(d, 0) == pdu::be16(buf, 2));
            assert(c[0] == frame.len() || c.len() > 1 && c[1] == frame.len());
        } else {
            if d.len() > 0 {
                assert(d[0] == buf[2]);
            }
            assert(c[0] == frame.len() || c.len() > 1 && c[1] == frame.len());
        }
    }
}

/// Bytes are refused for one of two reasons: fewer than four of them, told with
/// their number, or another CRC at the end than the one of the bytes before, told
/// with both. All others are a frame.
pub proof fn refusals_tell_why(raw: Seq<u8>, timestamp: Timestamp)
    ensures
        raw.len() < 4 <==> frame_of(raw, timestamp) matches Err(ParseErrorModel::TooShort { .. }),
        match frame_of(raw, timestamp) {
            Err(ParseErrorModel::TooShort { len }) => len == raw.len(),
            Err(ParseErrorModel::BadCrc { raw: shown, expected, computed }) => shown == raw
                && expected == raw[raw.len() - 2] + 256 * raw[raw.len() - 1] && computed
                == crc::crc_of(raw.take(raw.len() - 2)) && expected != computed,
            Ok(f) => f.raw == raw && f.slave == raw[0] && f.function == raw[1] && f.data
                == raw.subrange(2, raw.len() - 2) && f.timestamp == timestamp,
        },
{
}

/// The reason line tells the numbers of a refusal: how many bytes, or the CRC that
/// was found and the one that was computed, in this order.
pub proof fn reason_tells_the_numbers(len: nat, raw: Seq<u8>, expected: u16, computed: u16)
    ensures
        reason_text((ParseErrorModel::TooShort { len })) == "Truncated frame ("@ + text::dec_text(
            len,
        ) + " bytes, need ≥4)"@,
        reason_text((ParseErrorModel::BadCrc { raw, expected, computed }))
            == "Bad CRC (expected 0x"@ + text::hex_fixed(expected as nat, 4) + ", computed 0x"@
            + text::hex_fixed(computed as nat, 4) + ")"@,
{
}

/// A prediction needs four bytes, and asks for more than there are where it has
/// fewer. With four it is made for every function code that has a length, and only
/// lengths that a frame can have are predicted.
pub proof fn prediction_is_sound(buf: Seq<u8>)
    ensures
        length_hint(buf) is NeedMore <==> buf.len() < 4,
        buf.len() < 2 ==> length_hint(buf) == HintModel::NeedMore(2),
        2 <= buf.len() < 4 ==> length_hint(buf) == HintModel::NeedMore(4),
        length_hint(buf) matches HintModel::Candidates(c) ==> c.len() <= 2 && (forall|i: int|
            0 <= i < c.len() ==> #[trigger] c[i] >= 4),
        buf.len() >= 4 && buf[1] >= 128 ==> length_hint(buf) == HintModel::Candidates(seq![5usize]),
{
    if buf.len() >= 4 {
        let fc = buf[1];
        assert(fc & 0x80 != 0 <==> fc >= 128) by (bit_vector);
    }
}

/// A model holds every field of what it stands for.
pub proof fn nothing_is_left_out(f: ModbusFrame, e: ParseError)
    ensures
        f@.raw == f.raw@,
        f@.slave == f.slave,
        f@.function == f.function,
        f@.data == f.data@,
        f@.timestamp == f.timestamp,
        match e {
            ParseError::TooShort { len } => e@ == (ParseErrorModel::TooShort { len: len as nat }),
            ParseError::BadCrc { raw, expected, computed } => e@ == (ParseErrorModel::BadCrc {
                raw: raw@,
                expected,
                computed,
            }),
        },
{
}

/// The predicted lengths are those that the function code and the counts at hand
/// allow, in either role, and no others: four bytes around the data, whose length is
/// fixed or told by a count of its bytes.
pub proof fn predicted_lengths_are_the_possible_ones(buf: Seq<u8>, n: usize)
    requires
        buf.len() >= 4,
        buf[1] < 128,
        n >= 4,
    ensures
        ({
            let fc = buf[1];
            let len = n - 4;
            let counted = len == 1 + buf[2];
            let told = match fc {
                0x01 | 0x02 | 0x03 | 0x04 => len == 4 || counted,
                0x05 | 0x06 => len == 4,
                0x07 => len == 0 || len == 1,
                0x0B => len == 0 || len == 4,
                0x0C | 0x11 => len == 0 || counted,
                0x0F | 0x10 => len == 4 || buf.len() >= 7 && len == 5 + buf[6],
                0x14 | 0x15 => counted,
                0x16 => len == 6,
                0x17 => counted || buf.len() >= 11 && len == 9 + buf[10],
                0x18 => len == 2 || len == 2 + 256 * buf[2] + buf[3],
                _ => false,
            };
            match length_hint(buf) {
                HintModel::Candidates(c) => c.contains(n) <==> told,
                _ => !told,
            }
        }),
{
    let fc = buf[1];
    assert(fc & 0x80 == 0) by (bit_vector)
        requires
            fc < 128,
    ;
    if let HintModel::Candidates(c) = length_hint(buf) {
        assert(c.contains(n) <==> c[0] == n || c.len() > 1 && c[1] == n) by {
            if c[0] == n {
                assert(c.contains(n));
            }
            if c.len() > 1 && c[1] == n {
                assert(c.contains(n));
            }
        }
    }
}

} // verus!
