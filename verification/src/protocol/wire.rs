//! What the data of each PDU looks like on the wire, as laws of the decoder:
//! whatever is laid out this way is read back as what was laid out, and whatever
//! is read was laid out this way.
//!
//! Words stand high byte first, bits lowest first.

use vstd::prelude::*;

use crate::protocol::pdu;
use crate::protocol::pdu::{FileSubRequest, PduModel, Role};
use crate::text;

verus! {

/// A word as it stands on the wire.
pub open spec fn word(x: u16) -> Seq<u8> {
    seq![(x / 256) as u8, (x % 256) as u8]
}

/// Words one after another.
pub open spec fn words(values: Seq<u16>) -> Seq<u8>
    decreases values.len(),
{
    if values.len() == 0 {
        Seq::empty()
    } else {
        words(values.drop_last()) + word(values.last())
    }
}

/// A byte count and the bytes that it counts.
pub open spec fn counted(bytes: Seq<u8>) -> Seq<u8> {
    seq![bytes.len() as u8] + bytes
}

/// What a bit adds to its byte.
pub open spec fn weight(k: int) -> int
    decreases k,
{
    if k <= 0 {
        1
    } else {
        2 * weight(k - 1)
    }
}

/// Whether bytes hold bits, eight to a byte, the one of least weight first.
pub open spec fn holds_bits(bytes: Seq<u8>, bits: Seq<bool>) -> bool {
    &&& bits.len() <= 8 * bytes.len()
    &&& forall|i: int|
        0 <= i < bits.len() ==> #[trigger] bits[i] == ((bytes[i / 8] as int / weight(i % 8)) % 2
            == 1)
}

/// A sub-request as it stands on the wire.
pub open spec fn sub_request(s: FileSubRequest) -> Seq<u8> {
    seq![s.reference_type] + word(s.file_number) + word(s.record_number) + word(s.record_length)
}

/// Sub-requests one after another.
pub open spec fn sub_requests(subs: Seq<FileSubRequest>) -> Seq<u8>
    decreases subs.len(),
{
    if subs.len() == 0 {
        Seq::empty()
    } else {
        sub_requests(subs.drop_last()) + sub_request(subs.last())
    }
}

/// A coil value on the wire: all ones in the high byte for on, zero for off.
pub open spec fn coil(on: bool) -> Seq<u8> {
    if on {
        seq![0xFFu8, 0u8]
    } else {
        seq![0u8, 0u8]
    }
}

// --- words and bits ----------------------------------------------------------

proof fn lemma_word(x: u16, d: Seq<u8>, i: int)
    requires
        0 <= i,
        i + 1 < d.len(),
        d[i] == word(x)[0],
        d[i + 1] == word(x)[1],
    ensures
        pdu::be16(d, i) == x,
{
}

proof fn lemma_words_len(values: Seq<u16>)
    ensures
        words(values).len() == 2 * values.len(),
    decreases values.len(),
{
    if values.len() > 0 {
        lemma_words_len(values.drop_last());
    }
}

/// Words found at a place are the ones laid out there.
proof fn lemma_words_at(values: Seq<u16>, d: Seq<u8>, from: int)
    requires
        0 <= from,
        from + 2 * values.len() <= d.len(),
        d.subrange(from, from + 2 * values.len()) == words(values),
    ensures
        pdu::words(d, from, values.len()) == values,
    decreases values.len(),
{
    lemma_words_len(values);
    if values.len() > 0 {
        let front = values.drop_last();
        let n = values.len() as int;
        lemma_words_len(front);
        let part = d.subrange(from, from + 2 * n);
        assert(part.take(2 * (n - 1)) =~= words(front));
        assert(part.take(2 * (n - 1)) =~= d.subrange(from, from + 2 * (n - 1)));
        lemma_words_at(front, d, from);
        assert(part[2 * (n - 1)] == word(values.last())[0]);
        assert(part[2 * (n - 1) + 1] == word(values.last())[1]);
        lemma_word(values.last(), d, from + 2 * (n - 1));
        let got = pdu::words(d, from, n as nat);
        assert forall|k: int| 0 <= k < n implies got[k] == values[k] by {
            if k < n - 1 {
                assert(pdu::words(d, from, (n - 1) as nat)[k] == front[k]);
            }
        }
        assert(got =~= values);
    } else {
        assert(pdu::words(d, from, 0) =~= values);
    }
}

/// Words read off a place are laid out there.
proof fn lemma_words_from(d: Seq<u8>, from: int, n: nat)
    requires
        0 <= from,
        from + 2 * n <= d.len(),
    ensures
        words(pdu::words(d, from, n)) == d.subrange(from, from + 2 * n),
    decreases n,
{
    let got = pdu::words(d, from, n);
    if n > 0 {
        let front = pdu::words(d, from, (n - 1) as nat);
        lemma_words_from(d, from, (n - 1) as nat);
        assert(got.drop_last() =~= front);
        assert(word(got.last()) =~= d.subrange(from + 2 * (n - 1), from + 2 * n));
        assert(words(got) =~= d.subrange(from, from + 2 * n));
    } else {
        assert(words(got) =~= d.subrange(from, from + 2 * n));
    }
}

proof fn lemma_word_from(d: Seq<u8>, i: int)
    requires
        0 <= i,
        i + 1 < d.len(),
    ensures
        word(pdu::be16(d, i)) == seq![d[i], d[i + 1]],
{
    assert(word(pdu::be16(d, i)) =~= seq![d[i], d[i + 1]]);
}

proof fn lemma_bit(b: u8, k: u8)
    requires
        k < 8,
    ensures
        (b & (1u8 << k) != 0) == ((b as int / weight(k as int)) % 2 == 1),
{
    reveal_with_fuel(weight, 8);
    assert((b & (1u8 << 0u8) != 0 <==> (b / 1) % 2 == 1) && (b & (1u8 << 1u8) != 0 <==> (b / 2) % 2
        == 1) && (b & (1u8 << 2u8) != 0 <==> (b / 4) % 2 == 1) && (b & (1u8 << 3u8) != 0 <==> (b
        / 8) % 2 == 1) && (b & (1u8 << 4u8) != 0 <==> (b / 16) % 2 == 1) && (b & (1u8 << 5u8) != 0
        <==> (b / 32) % 2 == 1) && (b & (1u8 << 6u8) != 0 <==> (b / 64) % 2 == 1) && (b & (1u8
        << 7u8) != 0 <==> (b / 128) % 2 == 1)) by (bit_vector);
}

/// The bits read off a place are the ones that the bytes there hold.
proof fn lemma_bits(d: Seq<u8>, from: int, n: nat)
    requires
        0 <= from <= d.len(),
        n <= 8 * (d.len() - from),
    ensures
        holds_bits(d.skip(from), pdu::bit_run(d, from, n)),
{
    let bits = pdu::bit_run(d, from, n);
    let bytes = d.skip(from);
    assert forall|i: int| 0 <= i < bits.len() implies #[trigger] bits[i] == ((bytes[i / 8] as int
        / weight(i % 8)) % 2 == 1) by {
        lemma_bit(d[from + i / 8], (i % 8) as u8);
    }
}

/// Bytes hold only one run of bits of a length.
proof fn lemma_same_bits(bytes: Seq<u8>, a: Seq<bool>, b: Seq<bool>)
    requires
        holds_bits(bytes, a),
        holds_bits(bytes, b),
        a.len() == b.len(),
    ensures
        a == b,
{
    assert forall|i: int| 0 <= i < a.len() implies a[i] == b[i] by {}
    assert(a =~= b);
}

// --- reading back what was laid out ------------------------------------------

/// Function codes below 0x80 are no exceptions.
proof fn lemma_codes()
    ensures
        0x01u8 & 0x80 == 0,
        0x02u8 & 0x80 == 0,
        0x03u8 & 0x80 == 0,
        0x04u8 & 0x80 == 0,
        0x05u8 & 0x80 == 0,
        0x06u8 & 0x80 == 0,
        0x07u8 & 0x80 == 0,
        0x08u8 & 0x80 == 0,
        0x0Bu8 & 0x80 == 0,
        0x0Cu8 & 0x80 == 0,
        0x0Fu8 & 0x80 == 0,
        0x10u8 & 0x80 == 0,
        0x11u8 & 0x80 == 0,
        0x14u8 & 0x80 == 0,
        0x15u8 & 0x80 == 0,
        0x16u8 & 0x80 == 0,
        0x17u8 & 0x80 == 0,
        0x18u8 & 0x80 == 0,
        0x2Bu8 & 0x80 == 0,
{
    assert(0x01u8 & 0x80 == 0 && 0x02u8 & 0x80 == 0 && 0x03u8 & 0x80 == 0 && 0x04u8 & 0x80 == 0
        && 0x05u8 & 0x80 == 0 && 0x06u8 & 0x80 == 0 && 0x07u8 & 0x80 == 0 && 0x08u8 & 0x80 == 0
        && 0x0Bu8 & 0x80 == 0 && 0x0Cu8 & 0x80 == 0 && 0x0Fu8 & 0x80 == 0 && 0x10u8 & 0x80 == 0
        && 0x11u8 & 0x80 == 0 && 0x14u8 & 0x80 == 0 && 0x15u8 & 0x80 == 0 && 0x16u8 & 0x80 == 0
        && 0x17u8 & 0x80 == 0 && 0x18u8 & 0x80 == 0 && 0x2Bu8 & 0x80 == 0) by (bit_vector);
}

proof fn lemma_two_words(a: u16, b: u16)
    ensures
        (word(a) + word(b)).len() == 4,
        pdu::be16(word(a) + word(b), 0) == a,
        pdu::be16(word(a) + word(b), 2) == b,
{
    lemma_word(a, word(a) + word(b), 0);
    lemma_word(b, word(a) + word(b), 2);
}

/// A start and a count, a word each, are read back: as the request to read bits
/// or registers, and as the response to a write of several.
pub proof fn ranges_are_read_back(start: u16, count: u16)
    ensures
        ({
            let d = word(start) + word(count);
            &&& pdu::decode(Role::Request, 0x01, d) == (PduModel::ReadCoilsReq { start, count })
            &&& pdu::decode(Role::Request, 0x02, d) == (PduModel::ReadCoilsReq { start, count })
            &&& pdu::decode(Role::Request, 0x03, d) == (PduModel::ReadRegsReq { start, count })
            &&& pdu::decode(Role::Request, 0x04, d) == (PduModel::ReadRegsReq { start, count })
            &&& pdu::decode(Role::Response, 0x0F, d) == (PduModel::WriteMultipleCoilsResp {
                start,
                count,
            })
            &&& pdu::decode(Role::Response, 0x10, d) == (PduModel::WriteMultipleRegsResp {
                start,
                count,
            })
        }),
{
    lemma_codes();
    lemma_two_words(start, count);
}

/// The write of one coil or register, and its echo, are read back.
pub proof fn single_writes_are_read_back(addr: u16, value: u16, on: bool)
    ensures
        ({
            let d = word(addr) + word(value);
            let c = word(addr) + coil(on);
            &&& pdu::decode(Role::Request, 0x06, d) == (PduModel::WriteSingleRegReq { addr, value })
            &&& pdu::decode(Role::Response, 0x06, d) == (PduModel::WriteSingleRegResp {
                addr,
                value,
            })
            &&& pdu::decode(Role::Unknown, 0x06, d) == (PduModel::WriteSingleRegResp {
                addr,
                value,
            })
            &&& pdu::decode(Role::Request, 0x05, c) == (PduModel::WriteSingleCoilReq { addr, on })
            &&& pdu::decode(Role::Response, 0x05, c) == (PduModel::WriteSingleCoilResp { addr, on })
            &&& pdu::decode(Role::Unknown, 0x05, c) == (PduModel::WriteSingleCoilResp { addr, on })
        }),
{
    lemma_codes();
    lemma_two_words(addr, value);
    let v: u16 = if on {
        0xFF00
    } else {
        0
    };
    lemma_two_words(addr, v);
    assert(word(v) =~= coil(on));
}

/// Registers behind a byte count are read back, each in its place.
pub proof fn register_values_are_read_back(values: Seq<u16>)
    requires
        values.len() <= 127,
    ensures
        ({
            let d = counted(words(values));
            &&& pdu::decode(Role::Response, 0x03, d) == (PduModel::ReadRegsResp { values })
            &&& pdu::decode(Role::Response, 0x04, d) == (PduModel::ReadRegsResp { values })
            &&& pdu::decode(Role::Response, 0x17, d) == (PduModel::ReadWriteMultipleRegsResp {
                read_values: values,
            })
        }),
{
    let d = counted(words(values));
    lemma_codes();
    lemma_words_len(values);
    assert(d.subrange(1, (1 + 2 * values.len()) as int) =~= words(values));
    lemma_words_at(values, d, 1);
    assert(d[0] / 2 == values.len());
}

/// The states of bits behind a byte count are read back, each bit in its place.
pub proof fn bit_states_are_read_back(bytes: Seq<u8>, bits: Seq<bool>)
    requires
        bytes.len() <= 255,
        bits.len() == 8 * bytes.len(),
        holds_bits(bytes, bits),
    ensures
        pdu::decode(Role::Response, 0x01, counted(bytes)) == (PduModel::ReadCoilsResp { bits }),
        pdu::decode(Role::Response, 0x02, counted(bytes)) == (PduModel::ReadCoilsResp { bits }),
{
    let d = counted(bytes);
    lemma_codes();
    lemma_bits(d, 1, bits.len());
    assert(d.skip(1) =~= bytes);
    lemma_same_bits(bytes, pdu::bit_run(d, 1, bits.len()), bits);
}

/// The write of several registers is read back.
pub proof fn register_writes_are_read_back(start: u16, values: Seq<u16>)
    requires
        values.len() <= 127,
    ensures
        pdu::decode(
            Role::Request,
            0x10,
            word(start) + word(values.len() as u16) + counted(words(values)),
        ) == (PduModel::WriteMultipleRegsReq { start, count: values.len() as u16, values }),
{
    let d = word(start) + word(values.len() as u16) + counted(words(values));
    lemma_codes();
    lemma_words_len(values);
    lemma_word(start, d, 0);
    lemma_word(values.len() as u16, d, 2);
    assert(d.subrange(5, (5 + 2 * values.len()) as int) =~= words(values));
    lemma_words_at(values, d, 5);
}

/// The write of several coils is read back, each coil in its place.
pub proof fn coil_writes_are_read_back(start: u16, bytes: Seq<u8>, bits: Seq<bool>)
    requires
        bytes.len() <= 255,
        holds_bits(bytes, bits),
    ensures
        pdu::decode(
            Role::Request,
            0x0F,
            word(start) + word(bits.len() as u16) + counted(bytes),
        ) == (PduModel::WriteMultipleCoilsReq { start, count: bits.len() as u16, bits }),
{
    let d = word(start) + word(bits.len() as u16) + counted(bytes);
    lemma_codes();
    lemma_word(start, d, 0);
    lemma_word(bits.len() as u16, d, 2);
    assert(d.skip(5) =~= bytes);
    lemma_bits(d, 5, bits.len());
    lemma_same_bits(bytes, pdu::bit_run(d, 5, bits.len()), bits);
}

/// The combined read and write of registers is read back.
pub proof fn combined_accesses_are_read_back(
    read_start: u16,
    read_count: u16,
    write_start: u16,
    write_values: Seq<u16>,
)
    requires
        write_values.len() <= 127,
    ensures
        pdu::decode(
            Role::Request,
            0x17,
            word(read_start) + word(read_count) + word(write_start) + word(
                write_values.len() as u16,
            ) + counted(words(write_values)),
        ) == (PduModel::ReadWriteMultipleRegsReq {
            read_start,
            read_count,
            write_start,
            write_count: write_values.len() as u16,
            write_values,
        }),
{
    let n = write_values.len();
    let d = word(read_start) + word(read_count) + word(write_start) + word(n as u16) + counted(
        words(write_values),
    );
    lemma_codes();
    lemma_words_len(write_values);
    lemma_word(read_start, d, 0);
    lemma_word(read_count, d, 2);
    lemma_word(write_start, d, 4);
    lemma_word(n as u16, d, 6);
    assert(d.subrange(9, (9 + 2 * n) as int) =~= words(write_values));
    lemma_words_at(write_values, d, 9);
}

/// The write of a register under masks is read back, whichever way it goes.
pub proof fn mask_writes_are_read_back(role: Role, addr: u16, and_mask: u16, or_mask: u16)
    ensures
        pdu::decode(role, 0x16, word(addr) + word(and_mask) + word(or_mask)) == (
        PduModel::MaskWriteRegReq { addr, and_mask, or_mask }),
{
    let d = word(addr) + word(and_mask) + word(or_mask);
    lemma_codes();
    lemma_word(addr, d, 0);
    lemma_word(and_mask, d, 2);
    lemma_word(or_mask, d, 4);
}

/// The queue of registers is read back: how many bytes, how many registers, and
/// these.
pub proof fn queues_are_read_back(values: Seq<u16>)
    requires
        values.len() <= 32766,
    ensures
        pdu::decode(
            Role::Response,
            0x18,
            word((2 + 2 * values.len()) as u16) + word(values.len() as u16) + words(values),
        ) == (PduModel::ReadFifoQueueResp { fifo_count: values.len() as u16, values }),
{
    let n = values.len();
    let d = word((2 + 2 * n) as u16) + word(n as u16) + words(values);
    lemma_codes();
    lemma_words_len(values);
    lemma_word((2 + 2 * n) as u16, d, 0);
    lemma_word(n as u16, d, 2);
    assert(d.subrange(4, (4 + 2 * n) as int) =~= words(values));
    lemma_words_at(values, d, 4);
}

/// Diagnostics and encapsulated transports are read back, whichever way they go:
/// what comes first tells the kind, and all that follows is kept.
pub proof fn transports_are_read_back(role: Role, sub: u16, mei_type: u8, data: Seq<u8>)
    ensures
        pdu::decode(role, 0x08, word(sub) + data) == (PduModel::Diagnostic { sub, data }),
        pdu::decode(role, 0x2B, seq![mei_type] + data) == (PduModel::EncapsulatedInterface {
            mei_type,
            data,
        }),
{
    lemma_codes();
    lemma_word(sub, word(sub) + data, 0);
    assert((word(sub) + data).skip(2) =~= data);
    assert((seq![mei_type] + data).skip(1) =~= data);
}

/// What a slave tells of itself is read back.
pub proof fn slave_reports_are_read_back(
    status: u8,
    word_status: u16,
    event_count: u16,
    message_count: u16,
    bytes: Seq<u8>,
    run_indicator: u8,
)
    requires
        bytes.len() <= 249,
    ensures
        pdu::decode(Role::Response, 0x07, seq![status]) == (PduModel::ReadExceptionStatusResp {
            status,
        }),
        pdu::decode(Role::Response, 0x0B, word(word_status) + word(event_count)) == (
        PduModel::CommEventCounterResp { status: word_status, event_count }),
        pdu::decode(
            Role::Response,
            0x0C,
            counted(word(word_status) + word(event_count) + word(message_count) + bytes),
        ) == (PduModel::CommEventLogResp {
            status: word_status,
            event_count,
            message_count,
            events: bytes,
        }),
        pdu::decode(Role::Response, 0x11, counted(bytes.push(run_indicator))) == (
        PduModel::ReportSlaveIdResp { slave_id: bytes, run_indicator }),
{
    lemma_codes();
    lemma_two_words(word_status, event_count);
    let d = counted(word(word_status) + word(event_count) + word(message_count) + bytes);
    lemma_word(word_status, d, 1);
    lemma_word(event_count, d, 3);
    lemma_word(message_count, d, 5);
    assert(d.skip(7) =~= bytes);
    let r = counted(bytes.push(run_indicator));
    assert(r.subrange(1, r.len() - 1) =~= bytes);
}

proof fn lemma_sub_requests_len(subs: Seq<FileSubRequest>)
    ensures
        sub_requests(subs).len() == 7 * subs.len(),
    decreases subs.len(),
{
    if subs.len() > 0 {
        lemma_sub_requests_len(subs.drop_last());
    }
}

proof fn lemma_sub_request_at(subs: Seq<FileSubRequest>, k: int)
    requires
        0 <= k < subs.len(),
    ensures
        sub_requests(subs).subrange(7 * k, 7 * k + 7) == sub_request(subs[k]),
    decreases subs.len(),
{
    let front = subs.drop_last();
    lemma_sub_requests_len(subs);
    lemma_sub_requests_len(front);
    if k < front.len() {
        lemma_sub_request_at(front, k);
        assert(sub_requests(subs).subrange(7 * k, 7 * k + 7) =~= sub_requests(front).subrange(
            7 * k,
            7 * k + 7,
        ));
    } else {
        assert(sub_requests(subs).subrange(7 * k, 7 * k + 7) =~= sub_request(subs[k]));
    }
}

/// File records are read back: the sub-requests of a read in their order, and
/// of everything else the bytes behind their count.
pub proof fn file_records_are_read_back(subs: Seq<FileSubRequest>, data: Seq<u8>)
    requires
        subs.len() <= 36,
        data.len() <= 255,
    ensures
        pdu::decode(Role::Request, 0x14, counted(sub_requests(subs))) == (
        PduModel::ReadFileRecordsReq { sub_requests: subs }),
        pdu::decode(Role::Response, 0x14, counted(data)) == (PduModel::ReadFileRecordsResp {
            byte_count: data.len() as u8,
            data,
        }),
        forall|role: Role| #[trigger]
            pdu::decode(role, 0x15, counted(data)) == (PduModel::WriteFileRecords {
                byte_count: data.len() as u8,
                data,
            }),
{
    lemma_codes();
    assert(counted(data).skip(1) =~= data);
    let body = sub_requests(subs);
    let d = counted(body);
    lemma_sub_requests_len(subs);
    assert(d[0] / 7 == subs.len());
    let got = Seq::new((d[0] / 7) as nat, |k: int| pdu::sub_request(d, 1 + 7 * k));
    assert forall|k: int| 0 <= k < subs.len() implies got[k] == subs[k] by {
        let s = subs[k];
        let one = sub_request(s);
        lemma_sub_request_at(subs, k);
        let at = 7 * k;
        let part = body.subrange(at, at + 7);
        assert(part[0] == d[1 + at] && part[1] == d[1 + at + 1] && part[2] == d[1 + at + 2]);
        assert(part[3] == d[1 + at + 3] && part[4] == d[1 + at + 4]);
        assert(part[5] == d[1 + at + 5] && part[6] == d[1 + at + 6]);
        lemma_word(s.file_number, d, 1 + at + 1);
        lemma_word(s.record_number, d, 1 + at + 3);
        lemma_word(s.record_length, d, 1 + at + 5);
    }
    assert(got =~= subs);
}

/// An exception is a response to any function, in any role, and its code is
/// read back.
pub proof fn exceptions_are_read_back(role: Role, function: u8, code: u8)
    requires
        function >= 128,
    ensures
        pdu::decode(role, function, seq![code]) == (PduModel::Exception { code }),
        pdu::decode_pdu(role, function, seq![code]).role == Role::Response,
{
    assert(function & 0x80 != 0) by (bit_vector)
        requires
            function >= 128,
    ;
}

// --- nothing else is read ----------------------------------------------------

/// Whatever is read was laid out so: the data holds exactly what was read of it,
/// in its place, and nothing besides (but for the bits behind the last coil of a
/// write and the rest behind the last sub-request of a file read, which are
/// dropped). Data of any other form is shown with a reason.
#[verifier::rlimit(80)]
#[verifier::spinoff_prover]
pub proof fn decoding_loses_nothing(role: Role, fc: u8, d: Seq<u8>)
    ensures
        match pdu::decode(role, fc, d) {
            PduModel::ReadCoilsReq { start, count } => (fc == 0x01 || fc == 0x02) && role
                == Role::Request && d == word(start) + word(count),
            PduModel::ReadCoilsResp { bits } => (fc == 0x01 || fc == 0x02) && role != Role::Request
                && d.len() <= 256 && bits.len() == 8 * (d.len() - 1) && d == counted(d.skip(1))
                && holds_bits(d.skip(1), bits),
            PduModel::ReadRegsReq { start, count } => (fc == 0x03 || fc == 0x04) && role
                == Role::Request && d == word(start) + word(count),
            PduModel::ReadRegsResp { values } => (fc == 0x03 || fc == 0x04) && role != Role::Request
                && values.len() <= 127 && d == counted(words(values)),
            PduModel::WriteSingleCoilReq { addr, on } => fc == 0x05 && role == Role::Request && d
                == word(addr) + coil(on),
            PduModel::WriteSingleCoilResp { addr, on } => fc == 0x05 && role != Role::Request && d
                == word(addr) + coil(on),
            PduModel::WriteSingleRegReq { addr, value } => fc == 0x06 && role == Role::Request && d
                == word(addr) + word(value),
            PduModel::WriteSingleRegResp { addr, value } => fc == 0x06 && role != Role::Request && d
                == word(addr) + word(value),
            PduModel::ReadExceptionStatusResp { status } => fc == 0x07 && role != Role::Request && d
                == seq![status],
            PduModel::Diagnostic { sub, data } => fc == 0x08 && d == word(sub) + data,
            PduModel::CommEventCounterResp { status, event_count } => fc == 0x0B && role
                != Role::Request && d == word(status) + word(event_count),
            PduModel::CommEventLogResp { status, event_count, message_count, events } => fc == 0x0C
                && role != Role::Request && events.len() <= 249 && d == counted(
                word(status) + word(event_count) + word(message_count) + events,
            ),
            PduModel::WriteMultipleCoilsReq { start, count, bits } => fc == 0x0F && role
                != Role::Response && bits.len() == count && d.len() <= 260 && d == word(start)
                + word(count) + counted(d.skip(5)) && holds_bits(d.skip(5), bits),
            PduModel::WriteMultipleCoilsResp { start, count } => fc == 0x0F && role
                == Role::Response && d == word(start) + word(count),
            PduModel::WriteMultipleRegsReq { start, count, values } => fc == 0x10 && role
                != Role::Response && values.len() == count && count <= 127 && d == word(start)
                + word(count) + counted(words(values)),
            PduModel::WriteMultipleRegsResp { start, count } => fc == 0x10 && role == Role::Response
                && d == word(start) + word(count),
            PduModel::ReportSlaveIdResp { slave_id, run_indicator } => fc == 0x11 && role
                != Role::Request && slave_id.len() <= 254 && d == counted(
                slave_id.push(run_indicator),
            ),
            PduModel::ReadFileRecordsReq { sub_requests: subs } => fc == 0x14 && role
                == Role::Request && d.len() <= 256 && d == counted(d.skip(1)) && sub_requests(
                subs,
            ).is_prefix_of(d.skip(1)) && d.len() - 1 < 7 * subs.len() + 7,
            PduModel::ReadFileRecordsResp { byte_count, data } => fc == 0x14 && role
                != Role::Request && byte_count == data.len() && d == counted(data),
            PduModel::WriteFileRecords { byte_count, data } => fc == 0x15 && byte_count
                == data.len() && d == counted(data),
            PduModel::MaskWriteRegReq { addr, and_mask, or_mask } => fc == 0x16 && d == word(addr)
                + word(and_mask) + word(or_mask),
            PduModel::MaskWriteRegResp { .. } => false,
            PduModel::ReadWriteMultipleRegsReq {
                read_start,
                read_count,
                write_start,
                write_count,
                write_values,
            } => fc == 0x17 && role != Role::Response && write_values.len() == write_count
                && write_count <= 127 && d == word(read_start) + word(read_count) + word(
                write_start,
            ) + word(write_count) + counted(words(write_values)),
            PduModel::ReadWriteMultipleRegsResp { read_values } => fc == 0x17 && role
                == Role::Response && read_values.len() <= 127 && d == counted(words(read_values)),
            PduModel::ReadFifoQueueResp { fifo_count, values } => fc == 0x18 && role
                != Role::Request && values.len() == fifo_count && fifo_count <= 32766 && d == word(
                (2 + 2 * fifo_count) as u16,
            ) + word(fifo_count) + words(values),
            PduModel::EncapsulatedInterface { mei_type, data } => fc == 0x2B && d == seq![mei_type]
                + data,
            PduModel::Exception { code } => fc >= 128 && d == seq![code],
            PduModel::Raw { .. } => true,
        },
{
    lemma_codes();
    if fc & 0x80 != 0 {
        assert(fc & 0x80 != 0 ==> fc >= 128) by (bit_vector);
        if d.len() == 1 {
            assert(d =~= seq![d[0]]);
        }
    } else if fc == 0x14 && role == Role::Request {
        lemma_file_read(d);
    } else {
        if d.len() >= 2 {
            lemma_word_from(d, 0);
        }
        if d.len() >= 4 {
            lemma_word_from(d, 2);
        }
        match pdu::decode(role, fc, d) {
            PduModel::ReadCoilsResp { bits } => {
                assert(d =~= counted(d.skip(1)));
                lemma_bits(d, 1, bits.len());
            },
            PduModel::ReadRegsResp { values } => {
                lemma_words_from(d, 1, values.len());
                assert(d =~= counted(words(values)));
            },
            PduModel::WriteSingleCoilReq { addr, on } => {
                assert(d =~= word(addr) + coil(on));
            },
            PduModel::WriteSingleCoilResp { addr, on } => {
                assert(d =~= word(addr) + coil(on));
            },
            PduModel::ReadExceptionStatusResp { status } => {
                assert(d =~= seq![status]);
            },
            PduModel::Diagnostic { sub, data } => {
                assert(d =~= word(sub) + data);
            },
            PduModel::CommEventLogResp { status, event_count, message_count, events } => {
                lemma_word_from(d, 1);
                lemma_word_from(d, 3);
                lemma_word_from(d, 5);
                assert(d =~= counted(
                    word(status) + word(event_count) + word(message_count) + events,
                ));
            },
            PduModel::WriteMultipleCoilsReq { start, count, bits } => {
                assert(d =~= word(start) + word(count) + counted(d.skip(5)));
                lemma_bits(d, 5, bits.len());
            },
            PduModel::WriteMultipleRegsReq { start, count, values } => {
                lemma_words_from(d, 5, values.len());
                assert(d =~= word(start) + word(count) + counted(words(values)));
            },
            PduModel::ReportSlaveIdResp { slave_id, run_indicator } => {
                assert(d =~= counted(slave_id.push(run_indicator)));
            },
            PduModel::ReadFileRecordsResp { byte_count, data } => {
                assert(d =~= counted(data));
            },
            PduModel::WriteFileRecords { byte_count, data } => {
                assert(d =~= counted(data));
            },
            PduModel::MaskWriteRegReq { addr, and_mask, or_mask } => {
                lemma_word_from(d, 4);
                assert(d =~= word(addr) + word(and_mask) + word(or_mask));
            },
            PduModel::ReadWriteMultipleRegsReq {
                read_start,
                read_count,
                write_start,
                write_count,
                write_values,
            } => {
                lemma_word_from(d, 4);
                lemma_word_from(d, 6);
                lemma_words_from(d, 9, write_values.len());
                assert(d =~= word(read_start) + word(read_count) + word(write_start) + word(
                    write_count,
                ) + counted(words(write_values)));
            },
            PduModel::ReadWriteMultipleRegsResp { read_values } => {
                lemma_words_from(d, 1, read_values.len());
                assert(d =~= counted(words(read_values)));
            },
            PduModel::ReadFifoQueueResp { fifo_count, values } => {
                lemma_words_from(d, 4, values.len());
                assert(d =~= word((2 + 2 * fifo_count) as u16) + word(fifo_count) + words(values));
            },
            PduModel::EncapsulatedInterface { mei_type, data } => {
                assert(d =~= seq![mei_type] + data);
            },
            PduModel::Raw { .. } => {},
            _ => {
                assert(d.len() == 4);
                assert(d =~= word(pdu::be16(d, 0)) + word(pdu::be16(d, 2)));
            },
        }
    }
}

proof fn lemma_file_read(d: Seq<u8>)
    ensures
        match pdu::decode(Role::Request, 0x14, d) {
            PduModel::ReadFileRecordsReq { sub_requests: subs } => d.len() <= 256 && d == counted(
                d.skip(1),
            ) && sub_requests(subs).is_prefix_of(d.skip(1)) && d.len() - 1 < 7 * subs.len() + 7,
            PduModel::Raw { .. } => true,
            _ => false,
        },
{
    lemma_codes();
    if let PduModel::ReadFileRecordsReq { sub_requests: subs } = pdu::decode(
        Role::Request,
        0x14,
        d,
    ) {
        assert(d =~= counted(d.skip(1)));
        lemma_sub_requests_from(d, subs.len());
        assert(subs =~= Seq::new(subs.len(), |k: int| pdu::sub_request(d, 1 + 7 * k)));
        assert(sub_requests(subs) =~= d.skip(1).take(7 * subs.len() as int));
    }
}

proof fn lemma_sub_requests_from(d: Seq<u8>, n: nat)
    requires
        1 + 7 * n <= d.len(),
    ensures
        sub_requests(Seq::new(n, |k: int| pdu::sub_request(d, 1 + 7 * k))) == d.subrange(
            1,
            (1 + 7 * n) as int,
        ),
    decreases n,
{
    let got = Seq::new(n, |k: int| pdu::sub_request(d, 1 + 7 * k));
    if n > 0 {
        let m = (n - 1) as nat;
        lemma_sub_requests_from(d, m);
        assert(got.drop_last() =~= Seq::new(m, |k: int| pdu::sub_request(d, 1 + 7 * k)));
        let at = (1 + 7 * m) as int;
        lemma_word_from(d, at + 1);
        lemma_word_from(d, at + 3);
        lemma_word_from(d, at + 5);
        assert(sub_request(got.last()) =~= d.subrange(at, at + 7));
        assert(sub_requests(got) =~= d.subrange(1, (1 + 7 * n) as int));
    } else {
        assert(sub_requests(got) =~= d.subrange(1, (1 + 7 * n) as int));
    }
}

/// A PDU keeps its function code. A hint decides in which role it is read, unless
/// it is an exception, which is always a response.
pub proof fn hints_are_taken(hint: Role, fc: u8, d: Seq<u8>)
    ensures
        pdu::decode_pdu(hint, fc, d).function == fc,
        fc >= 128 ==> pdu::decode_pdu(hint, fc, d).role == Role::Response,
        fc < 128 && hint != Role::Unknown ==> pdu::decode_pdu(hint, fc, d).role == hint,
        pdu::decode_pdu(hint, fc, d).details == pdu::decode(
            pdu::decode_pdu(hint, fc, d).role,
            fc,
            d,
        ),
{
    assert(fc & 0x80 != 0 <==> fc >= 128) by (bit_vector);
}

/// Where no role can be told, the writes of several values and the combined read
/// and write are read as requests, and everything else as a response.
pub proof fn open_roles_are_read_one_way(fc: u8, d: Seq<u8>)
    ensures
        fc == 0x0F || fc == 0x10 || fc == 0x17 ==> pdu::decode(Role::Unknown, fc, d) == pdu::decode(
            Role::Request,
            fc,
            d,
        ),
        fc != 0x0F && fc != 0x10 && fc != 0x17 ==> pdu::decode(Role::Unknown, fc, d) == pdu::decode(
            Role::Response,
            fc,
            d,
        ),
{
}

/// The role that a layout shows, told by the layouts themselves: the data of a
/// request that cannot be a response shows a request, and the other way round.
pub proof fn clear_layouts_show_their_role(start: u16, count: u16, values: Seq<u16>)
    requires
        0 < values.len() <= 125,
    ensures
        pdu::layout_role(0x03, word(start) + word(count)) == Role::Request,
        pdu::layout_role(0x04, word(start) + word(count)) == Role::Request,
        start >= 0x0400 || start < 0x0300 ==> pdu::layout_role(0x01, word(start) + word(count))
            == Role::Request && pdu::layout_role(0x02, word(start) + word(count)) == Role::Request,
        pdu::layout_role(0x03, counted(words(values))) == Role::Response,
        pdu::layout_role(0x04, counted(words(values))) == Role::Response,
        pdu::layout_role(0x0F, word(start) + word(count)) == Role::Response,
        pdu::layout_role(0x10, word(start) + word(count)) == Role::Response,
        pdu::layout_role(
            0x10,
            word(start) + word(values.len() as u16) + counted(words(values)),
        ) == Role::Request,
        pdu::layout_role(0x05, word(start) + coil(true)) == Role::Unknown,
        pdu::layout_role(0x06, word(start) + word(count)) == Role::Unknown,
{
    lemma_codes();
    lemma_words_len(values);
    lemma_two_words(start, count);
    lemma_two_words(start, 0xFF00);
    assert(word(0xFF00) =~= coil(true));
    let d = word(start) + word(values.len() as u16) + counted(words(values));
    lemma_word(values.len() as u16, d, 2);
}

/// Data has two readings exactly if it is the request of a read of bits, or of a
/// combined read and write, and could be the response as well.
pub proof fn two_readings_both_decode(fc: u8, d: Seq<u8>)
    ensures
        pdu::fits_two_layouts(fc, d) <==> (fc == 0x01 || fc == 0x02 || fc == 0x17) && !(pdu::decode(
            Role::Request,
            fc,
            d,
        ) is Raw) && !(pdu::decode(Role::Response, fc, d) is Raw),
{
    lemma_codes();
    pdu::layouts_are_what_decodes(fc, d);
}

// --- reasons -----------------------------------------------------------------

/// Where the length of the data is wrong for its function and its role, the reason
/// ends in the length that was found.
pub proof fn wrong_lengths_are_told(role: Role, fc: u8, d: Seq<u8>)
    requires
        match fc {
            0x01 | 0x02 | 0x03 | 0x04 => role == Role::Request && d.len() != 4,
            0x05 | 0x06 => d.len() != 4,
            0x07 => if role == Role::Request {
                d.len() > 0
            } else {
                d.len() != 1
            },
            0x08 => d.len() < 2,
            0x0B => if role == Role::Request {
                d.len() > 0
            } else {
                d.len() != 4
            },
            0x0C => if role == Role::Request {
                d.len() > 0
            } else {
                d.len() < 7
            },
            0x0F | 0x10 => if role == Role::Response {
                d.len() != 4
            } else {
                d.len() < 5
            },
            0x11 => role == Role::Request && d.len() > 0,
            0x16 => d.len() != 6,
            0x17 => role != Role::Response && d.len() < 9,
            0x18 => if role == Role::Request {
                d.len() != 2
            } else {
                d.len() < 4
            },
            _ => false,
        },
    ensures
        ({
            let found = text::dec_text(d.len());
            let asked = role == Role::Request;
            pdu::decode(role, fc, d) == (PduModel::Raw {
                reason: match fc {
                    0x01 | 0x02 | 0x03 | 0x04 => pdu::function_name_text(fc)
                        + " request: expected 4 bytes, got "@ + found,
                    0x05 => "Write Single Coil: expected 4 bytes, got "@ + found,
                    0x06 => "Write Single Register: expected 4 bytes, got "@ + found,
                    0x07 => if asked {
                        "Read Exception Status request: expected 0 bytes, got "@ + found
                    } else {
                        "Read Exception Status response: expected 1 byte, got "@ + found
                    },
                    0x08 => "Diagnostics: expected ≥2 bytes, got "@ + found,
                    0x0B => if asked {
                        "Get Comm Event Counter request: expected 0 bytes, got "@ + found
                    } else {
                        "Get Comm Event Counter response: expected 4 bytes, got "@ + found
                    },
                    0x0C => if asked {
                        "Get Comm Event Log request: expected 0 bytes, got "@ + found
                    } else {
                        "Get Comm Event Log response: expected ≥7 bytes, got "@ + found
                    },
                    0x0F => if role == Role::Response {
                        "Write Multiple Coils response: expected 4 bytes, got "@ + found
                    } else {
                        "Write Multiple Coils request: expected ≥5 bytes, got "@ + found
                    },
                    0x10 => if role == Role::Response {
                        "Write Holding Registers response: expected 4 bytes, got "@ + found
                    } else {
                        "Write Holding Registers request: expected ≥5 bytes, got "@ + found
                    },
                    0x11 => "Report Slave ID request: expected 0 bytes, got "@ + found,
                    0x16 => "Mask Write Register: expected 6 bytes, got "@ + found,
                    0x17 => "Read/Write Multiple Registers request: expected ≥9 bytes, got "@
                        + found,
                    _ => if asked {
                        "Read FIFO Queue request: expected 2 bytes, got "@ + found
                    } else {
                        "Read FIFO Queue response: expected ≥4 bytes, got "@ + found
                    },
                },
            })
        }),
{
    lemma_codes();
}

/// Where a count in the data is wrong, the reason tells the count and what was
/// found.
pub proof fn wrong_counts_are_told(role: Role, fc: u8, d: Seq<u8>)
    requires
        d.len() > 0,
        d.len() != 1 + d[0],
    ensures
        ({
            let count = text::dec_text(d[0] as nat);
            let found = text::dec_text((d.len() - 1) as nat);
            let name = pdu::function_name_text(fc);
            match pdu::decode(role, fc, d) {
                PduModel::Raw { reason } => {
                    &&& (fc == 0x01 || fc == 0x02) && role != Role::Request ==> reason == name
                        + " response: byte count "@ + count + " but "@ + found + " data bytes"@
                    &&& (fc == 0x03 || fc == 0x04) && role != Role::Request ==> reason == name
                        + " response: bad byte count "@ + count + " for "@ + found + " data bytes"@
                    &&& fc == 0x0C && role != Role::Request && d.len() >= 7 ==> reason
                        == "Get Comm Event Log: byte count "@ + count + " but "@ + found
                        + " data bytes"@
                    &&& fc == 0x11 && role != Role::Request ==> reason
                        == "Report Slave ID: byte count "@ + count + " but "@ + found
                        + " data bytes"@
                    &&& fc == 0x14 || fc == 0x15 ==> reason == name + ": byte count "@ + count
                        + " but "@ + found + " data bytes"@
                    &&& fc == 0x17 && role == Role::Response ==> reason
                        == "Read/Write Multiple Registers response: bad byte count "@ + count
                },
                _ => true,
            }
        }),
{
    lemma_codes();
}

/// A function that is not known is told by its code, and an exception that is not
/// one byte long by what is wrong with it, with the function that it answers.
pub proof fn other_failures_are_told(role: Role, fc: u8, d: Seq<u8>)
    ensures
        fc >= 128 && d.len() == 0 ==> pdu::decode(role, fc, d) == (PduModel::Raw {
            reason: "Exception response missing exception code"@,
        }),
        fc >= 128 && d.len() > 1 ==> pdu::decode(role, fc, d) == (PduModel::Raw {
            reason: "Exception response for "@ + pdu::function_name_text((fc - 128) as u8)
                + " has extra bytes (expected 1, got "@ + text::dec_text(d.len()) + ")"@,
        }),
        fc < 128 && pdu::function_name_text(fc) == "Unknown Function"@ ==> pdu::decode(role, fc, d)
            == (PduModel::Raw {
            reason: "Unknown Function 0x"@ + text::hex_fixed(fc as nat, 2),
        }),
        fc == 0x05 && d.len() == 4 && pdu::be16(d, 2) != 0 && pdu::be16(d, 2) != 0xFF00
            ==> pdu::decode(role, fc, d) == (PduModel::Raw {
            reason: "Write Single Coil: invalid value 0x"@ + text::hex_fixed(
                pdu::be16(d, 2) as nat,
                4,
            ),
        }),
        fc == 0x18 && d.len() == 2 ==> pdu::decode(Role::Request, fc, d) == (PduModel::Raw {
            reason: "Read FIFO Queue (request, addr 0x"@ + text::hex_fixed(
                pdu::be16(d, 0) as nat,
                4,
            ) + ")"@,
        }),
{
    lemma_codes();
    lemma_names();
    assert(fc & 0x80 != 0 <==> fc >= 128) by (bit_vector);
    assert(fc >= 128 ==> fc & 0x7F == fc - 128) by (bit_vector);
}

/// The names of functions as far as reasons quote them.
proof fn lemma_names()
    ensures
        forall|fc: u8|
            (fc == 0x01 || fc == 0x02 || fc == 0x03 || fc == 0x04 || fc == 0x05 || fc == 0x06 || fc
                == 0x07 || fc == 0x08 || fc == 0x0B || fc == 0x0C || fc == 0x0F || fc == 0x10 || fc
                == 0x11 || fc == 0x14 || fc == 0x15 || fc == 0x16 || fc == 0x17 || fc == 0x18 || fc
                == 0x2B) ==> #[trigger] pdu::function_name_text(fc) != "Unknown Function"@,
{
    reveal_strlit("Unknown Function");
    reveal_strlit("Read Coils");
    reveal_strlit("Read Discrete Inputs");
    reveal_strlit("Read Holding Registers");
    reveal_strlit("Read Input Registers");
    reveal_strlit("Write Single Coil");
    reveal_strlit("Write Single Register");
    reveal_strlit("Read Exception Status");
    reveal_strlit("Diagnostics");
    reveal_strlit("Get Comm Event Counter");
    reveal_strlit("Get Comm Event Log");
    reveal_strlit("Write Multiple Coils");
    reveal_strlit("Write Holding Registers");
    reveal_strlit("Report Slave ID");
    reveal_strlit("Read File Records");
    reveal_strlit("Write File Records");
    reveal_strlit("Mask Write Register");
    reveal_strlit("Read/Write Multiple Registers");
    reveal_strlit("Read FIFO Queue");
    reveal_strlit("Encapsulated Interface Transport");
    let u = "Unknown Function"@;
    assert(u[0] == 'U');
    assert("Read Coils"@[0] == 'R' && "Read Discrete Inputs"@[0] == 'R'
        && "Read Holding Registers"@[0] == 'R' && "Read Input Registers"@[0] == 'R');
    assert("Write Single Coil"@[0] == 'W' && "Write Single Register"@[0] == 'W'
        && "Read Exception Status"@[0] == 'R' && "Diagnostics"@[0] == 'D');
    assert("Get Comm Event Counter"@[0] == 'G' && "Get Comm Event Log"@[0] == 'G'
        && "Write Multiple Coils"@[0] == 'W' && "Write Holding Registers"@[0] == 'W');
    assert("Report Slave ID"@[0] == 'R' && "Read File Records"@[0] == 'R'
        && "Write File Records"@[0] == 'W' && "Mask Write Register"@[0] == 'M');
    assert("Read/Write Multiple Registers"@[0] == 'R' && "Read FIFO Queue"@[0] == 'R'
        && "Encapsulated Interface Transport"@[0] == 'E');
}

/// Where the values of a write, or of a queue, are not as many as they are said to be,
/// the reason tells what was said and what was found.
pub proof fn wrong_value_counts_are_told(d: Seq<u8>)
    ensures
        d.len() >= 5 && d.len() != 5 + d[4] ==> pdu::decode(Role::Request, 0x0F, d) == (
        PduModel::Raw {
            reason: "Write Multiple Coils: byte count "@ + text::dec_text(d[4] as nat) + " but "@
                + text::dec_text((d.len() - 5) as nat) + " bytes"@,
        }),
        d.len() >= 5 && d.len() == 5 + d[4] && pdu::be16(d, 2) > 8 * d[4] ==> pdu::decode(
            Role::Request,
            0x0F,
            d,
        ) == (PduModel::Raw {
            reason: "Write Multiple Coils: "@ + text::dec_text(pdu::be16(d, 2) as nat)
                + " coils do not fit in "@ + text::dec_text(d[4] as nat) + " bytes"@,
        }),
        d.len() >= 5 && (d.len() != 5 + d[4] || d[4] != 2 * pdu::be16(d, 2)) ==> pdu::decode(
            Role::Request,
            0x10,
            d,
        ) == (PduModel::Raw {
            reason: "Write Holding Registers: inconsistent count "@ + text::dec_text(
                pdu::be16(d, 2) as nat,
            ) + " / byte count "@ + text::dec_text(d[4] as nat) + " / "@ + text::dec_text(
                (d.len() - 5) as nat,
            ) + " bytes"@,
        }),
        d.len() >= 4 && d.len() != 2 + pdu::be16(d, 0) ==> pdu::decode(Role::Response, 0x18, d) == (
        PduModel::Raw {
            reason: "Read FIFO Queue response: byte count "@ + text::dec_text(
                pdu::be16(d, 0) as nat,
            ) + " but "@ + text::dec_text((d.len() - 2) as nat) + " bytes"@,
        }),
        d.len() >= 4 && d.len() == 2 + pdu::be16(d, 0) && d.len() != 4 + 2 * pdu::be16(d, 2)
            ==> pdu::decode(Role::Response, 0x18, d) == (PduModel::Raw {
            reason: "Read FIFO Queue response: queue count "@ + text::dec_text(
                pdu::be16(d, 2) as nat,
            ) + " but "@ + text::dec_text((d.len() - 4) as nat) + " value bytes"@,
        }),
{
    lemma_codes();
}

} // verus!
