//! CRC-16/Modbus (polynomial 0xA001, initial value 0xFFFF, reflected).
//!
//! Used to validate RTU frames. The two trailing CRC bytes in an RTU frame
//! are stored little-endian (low byte first).

use vstd::prelude::*;

verus! {

/// One step of the shift register: the lowest bit leaves, and where it was set
/// the polynomial is subtracted.
pub open spec fn crc_shift(crc: u16) -> u16 {
    if crc & 1 != 0 {
        (crc >> 1) ^ 0xA001
    } else {
        crc >> 1
    }
}

/// The register after taking in one byte.
pub open spec fn crc_byte(crc: u16, b: u8) -> u16 {
    crc_shift(crc_shift(crc_shift(crc_shift(crc_shift(crc_shift(crc_shift(crc_shift(
        crc ^ (b as u16),
    ))))))))
}

/// The register after taking in all of `s`.
pub open spec fn crc_of(s: Seq<u8>) -> u16
    decreases s.len(),
{
    if s.len() == 0 {
        0xFFFF
    } else {
        crc_byte(crc_of(s.drop_last()), s.last())
    }
}

/// The two bytes of `c`, low byte first, as they stand on the wire.
pub open spec fn crc_wire(c: u16) -> Seq<u8> {
    seq![(c % 256) as u8, (c / 256) as u8]
}

/// The value of two bytes, low byte first.
pub open spec fn le16(lo: u8, hi: u8) -> u16 {
    (lo + 256 * hi) as u16
}

/// Whether the last two bytes of `s` are the CRC of what stands before them.
pub open spec fn crc_closes(s: Seq<u8>) -> bool {
    &&& s.len() >= 2
    &&& crc_of(s.take(s.len() - 2)) == le16(s[s.len() - 2], s[s.len() - 1])
}

/// Shift the register once.
fn shift(crc: u16) -> (r: u16)
    ensures
        r == crc_shift(crc),
{
    if crc & 1 != 0 {
        (crc >> 1) ^ 0xA001
    } else {
        crc >> 1
    }
}

/// Compute the CRC-16/Modbus of `buf`.
pub fn crc16(buf: &[u8]) -> (r: u16)
    ensures
        r == crc_of(buf@),
{
    let mut crc: u16 = 0xFFFF;
    let mut i: usize = 0;
    while i < buf.len()
        invariant
            i <= buf.len(),
            crc == crc_of(buf@.take(i as int)),
        decreases buf.len() - i,
    {
        let b = buf[i];
        proof {
            assert(buf@.take(i + 1).drop_last() =~= buf@.take(i as int));
            assert(buf@.take(i + 1).last() == b);
        }
        crc = shift(shift(shift(shift(shift(shift(shift(shift(crc ^ (b as u16)))))))));
        i = i + 1;
    }
    assert(buf@.take(i as int) =~= buf@);
    crc
}

/// The value of two bytes, low byte first.
pub fn from_wire(lo: u8, hi: u8) -> (r: u16)
    ensures
        r == le16(lo, hi),
{
    (lo as u16) + 256 * (hi as u16)
}

/// Append the CRC (little-endian) to `buf`.
pub fn append_crc(buf: &mut Vec<u8>)
    ensures
        final(buf)@ == old(buf)@ + crc_wire(crc_of(old(buf)@)),
{
    let c = crc16(buf.as_slice());
    buf.push((c % 256) as u8);
    buf.push((c / 256) as u8);
    assert(buf@ =~= old(buf)@ + crc_wire(c));
}

/// Whatever `append_crc` appends, the result is closed by its CRC.
pub proof fn appended_crc_closes(s: Seq<u8>)
    ensures
        crc_closes(s + crc_wire(crc_of(s))),
{
    let t = s + crc_wire(crc_of(s));
    assert(t.take(t.len() - 2) =~= s);
}

/// No other two bytes close `s`: whatever is closed by its CRC ends in exactly
/// the bytes that `append_crc` appends.
pub proof fn closing_bytes_are_the_crc(s: Seq<u8>)
    requires
        crc_closes(s),
    ensures
        s == s.take(s.len() - 2) + crc_wire(crc_of(s.take(s.len() - 2))),
{
    let body = s.take(s.len() - 2);
    assert(s =~= body + crc_wire(crc_of(body)));
}

/// Running the register over a message and its CRC leaves zero, and nothing
/// else does: a sequence of two bytes or more has the CRC zero exactly if it is
/// closed by its CRC.
pub proof fn crc_closes_iff_remainder_is_zero(s: Seq<u8>)
    requires
        s.len() >= 2,
    ensures
        crc_closes(s) <==> crc_of(s) == 0,
{
    let body = s.take(s.len() - 2);
    let lo = s[s.len() - 2];
    let hi = s[s.len() - 1];
    assert(s.drop_last().drop_last() =~= body);
    assert(s.drop_last().last() == lo);
    let c = crc_of(body);
    assert(crc_of(s.drop_last()) == crc_byte(c, lo));
    assert(crc_of(s) == crc_byte(crc_byte(c, lo), hi));
    let d = crc_byte(c, lo);
    assert(crc_byte(d, hi) == 0 <==> d == hi as u16) by (bit_vector);
    assert(c == le16(lo, hi) <==> d == hi as u16) by {
        assert(crc_byte(c, lo) == hi as u16 <==> c == ((lo + 256 * hi) as u16)) by (bit_vector);
    }
}

/// The CRC of no bytes is all ones, and each byte more changes it by that byte and
/// the CRC so far alone: first into the low byte, then eight shifts, with the
/// polynomial wherever a one falls out.
pub proof fn crc_goes_byte_by_byte(s: Seq<u8>, b: u8)
    ensures
        crc_of(Seq::<u8>::empty()) == 0xFFFF,
        crc_of(s.push(b)) == crc_byte(crc_of(s), b),
{
    assert(s.push(b).drop_last() =~= s);
}

/// No single byte can change unnoticed: messages that differ in one byte have
/// different CRCs.
pub proof fn changed_byte_is_noticed(front: Seq<u8>, x: u8, y: u8, back: Seq<u8>)
    requires
        x != y,
    ensures
        crc_of(front.push(x) + back) != crc_of(front.push(y) + back),
    decreases back.len(),
{
    if back.len() == 0 {
        let c = crc_of(front);
        crc_goes_byte_by_byte(front, x);
        crc_goes_byte_by_byte(front, y);
        assert(front.push(x) + back =~= front.push(x));
        assert(front.push(y) + back =~= front.push(y));
        assert(x != y ==> crc_byte(c, x) != crc_byte(c, y)) by (bit_vector);
    } else {
        let rest = back.drop_last();
        let b = back.last();
        changed_byte_is_noticed(front, x, y, rest);
        let p = crc_of(front.push(x) + rest);
        let q = crc_of(front.push(y) + rest);
        crc_goes_byte_by_byte(front.push(x) + rest, b);
        crc_goes_byte_by_byte(front.push(y) + rest, b);
        assert((front.push(x) + rest).push(b) =~= front.push(x) + back);
        assert((front.push(y) + rest).push(b) =~= front.push(y) + back);
        assert(p != q ==> crc_byte(p, b) != crc_byte(q, b)) by (bit_vector);
    }
}

/// On the wire the low byte comes first, and the two bytes are read back.
pub proof fn crc_is_sent_low_byte_first(c: u16)
    ensures
        crc_wire(c).len() == 2,
        crc_wire(c)[0] + 256 * crc_wire(c)[1] == c,
        le16(crc_wire(c)[0], crc_wire(c)[1]) == c,
{
}

} // verus!
