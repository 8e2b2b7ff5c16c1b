//! Text building blocks: decimal and hexadecimal numerals, joining, trimming,
//! splitting and number parsing, each stated over sequences of characters.

use vstd::prelude::*;

verus! {

broadcast use vstd::string::group_string_axioms;

// --- numerals ----------------------------------------------------------------

/// The digit character of `d`: `0`-`9`, then `A`-`F`.
pub open spec fn upper_digit(d: int) -> char {
    if d < 10 {
        (('0' as int) + d) as char
    } else {
        (('A' as int) + (d - 10)) as char
    }
}

/// The digit character of `d`: `0`-`9`, then `a`-`f`.
pub open spec fn lower_digit(d: int) -> char {
    if d < 10 {
        (('0' as int) + d) as char
    } else {
        (('a' as int) + (d - 10)) as char
    }
}

/// The decimal numeral of `n`, without leading zeros.
pub open spec fn dec_text(n: nat) -> Seq<char>
    decreases n,
{
    if n < 10 {
        seq![upper_digit(n as int)]
    } else {
        dec_text(n / 10).push(upper_digit((n % 10) as int))
    }
}

/// The last `width` decimal digits of `n`, with leading zeros.
pub open spec fn dec_fixed(n: nat, width: nat) -> Seq<char>
    decreases width,
{
    if width == 0 {
        Seq::empty()
    } else {
        dec_fixed(n / 10, (width - 1) as nat).push(upper_digit((n % 10) as int))
    }
}

/// The last `width` upper-case hexadecimal digits of `n`, with leading zeros.
pub open spec fn hex_fixed(n: nat, width: nat) -> Seq<char>
    decreases width,
{
    if width == 0 {
        Seq::empty()
    } else {
        hex_fixed(n / 16, (width - 1) as nat).push(upper_digit((n % 16) as int))
    }
}

/// A byte as two lower-case hexadecimal digits.
pub open spec fn hex_byte(b: u8) -> Seq<char> {
    seq![lower_digit(b as int / 16), lower_digit(b as int % 16)]
}

/// `n` spaces.
pub open spec fn spaces(n: nat) -> Seq<char> {
    Seq::new(n, |i: int| ' ')
}

/// `s` with spaces in front of it, so that it is at least `width` long.
pub open spec fn right_aligned(s: Seq<char>, width: nat) -> Seq<char> {
    if s.len() < width {
        spaces((width - s.len()) as nat) + s
    } else {
        s
    }
}

/// Append the upper-case digit of `d`.
fn push_upper_digit(out: &mut String, d: u8)
    requires
        d < 16,
    ensures
        final(out)@ == old(out)@.push(upper_digit(d as int)),
{
    proof {
        reveal_strlit("0");
        reveal_strlit("1");
        reveal_strlit("2");
        reveal_strlit("3");
        reveal_strlit("4");
        reveal_strlit("5");
        reveal_strlit("6");
        reveal_strlit("7");
        reveal_strlit("8");
        reveal_strlit("9");
        reveal_strlit("A");
        reveal_strlit("B");
        reveal_strlit("C");
        reveal_strlit("D");
        reveal_strlit("E");
        reveal_strlit("F");
    }
    let digit = match d {
        0 => "0",
        1 => "1",
        2 => "2",
        3 => "3",
        4 => "4",
        5 => "5",
        6 => "6",
        7 => "7",
        8 => "8",
        9 => "9",
        10 => "A",
        11 => "B",
        12 => "C",
        13 => "D",
        14 => "E",
        _ => "F",
    };
    assert(digit@ =~= seq![upper_digit(d as int)]);
    out.append(digit);
    assert(out@ =~= old(out)@.push(upper_digit(d as int)));
}

/// Append the lower-case digit of `d`.
fn push_lower_digit(out: &mut String, d: u8)
    requires
        d < 16,
    ensures
        final(out)@ == old(out)@.push(lower_digit(d as int)),
{
    if d < 10 {
        push_upper_digit(out, d);
    } else {
        proof {
            reveal_strlit("a");
            reveal_strlit("b");
            reveal_strlit("c");
            reveal_strlit("d");
            reveal_strlit("e");
            reveal_strlit("f");
        }
        let digit = match d {
            10 => "a",
            11 => "b",
            12 => "c",
            13 => "d",
            14 => "e",
            _ => "f",
        };
        assert(digit@ =~= seq![lower_digit(d as int)]);
        out.append(digit);
        assert(out@ =~= old(out)@.push(lower_digit(d as int)));
    }
}

/// The decimal numeral of `n`.
pub fn dec(n: u64) -> (r: String)
    ensures
        r@ == dec_text(n as nat),
    decreases n,
{
    let mut out = if n < 10 {
        String::new()
    } else {
        dec(n / 10)
    };
    push_upper_digit(&mut out, (n % 10) as u8);
    assert(n < 10 ==> out@ =~= seq![upper_digit(n as int)]);
    out
}

/// The last `width` upper-case hexadecimal digits of `n`.
fn hex_width(n: u16, width: u8) -> (r: String)
    ensures
        r@ == hex_fixed(n as nat, width as nat),
    decreases width,
{
    if width == 0 {
        String::new()
    } else {
        let mut out = hex_width(n / 16, width - 1);
        push_upper_digit(&mut out, (n % 16) as u8);
        out
    }
}

/// `n` as four upper-case hexadecimal digits.
pub fn hex4(n: u16) -> (r: String)
    ensures
        r@ == hex_fixed(n as nat, 4),
{
    hex_width(n, 4)
}

/// `n` as two upper-case hexadecimal digits.
pub fn hex2(n: u8) -> (r: String)
    ensures
        r@ == hex_fixed(n as nat, 2),
{
    hex_width(n as u16, 2)
}

/// `b` as two lower-case hexadecimal digits.
pub fn hex2_lower(b: u8) -> (r: String)
    ensures
        r@ == hex_byte(b),
{
    let mut out = String::new();
    push_lower_digit(&mut out, b / 16);
    push_lower_digit(&mut out, b % 16);
    assert(out@ =~= hex_byte(b));
    out
}

/// The decimal numeral of `n`, right-aligned in `width` columns.
pub fn dec_right_aligned(n: u64, width: usize) -> (r: String)
    ensures
        r@ == right_aligned(dec_text(n as nat), width as nat),
{
    let digits = dec(n);
    let len = digits.as_str().unicode_len();
    let mut out = String::new();
    let mut i: usize = len;
    assert(out@ =~= spaces(0));
    while i < width
        invariant
            len <= i,
            len < width ==> i <= width,
            len >= width ==> i == len,
            out@ == spaces((i - len) as nat),
        decreases width - i,
    {
        out.append(" ");
        i = i + 1;
        proof {
            reveal_strlit(" ");
        }
        assert(out@ =~= spaces((i - len) as nat));
    }
    out.append(digits.as_str());
    assert(out@ =~= right_aligned(dec_text(n as nat), width as nat));
    out
}

/// Whether two texts hold the same characters.
pub fn same_text(a: &str, b: &str) -> (r: bool)
    ensures
        r == (a@ == b@),
{
    let x = String::from_str(a);
    let y = String::from_str(b);
    x == y
}

// --- joining -----------------------------------------------------------------

/// The characters of each text of a list.
pub open spec fn texts(parts: Seq<String>) -> Seq<Seq<char>> {
    Seq::new(parts.len(), |i: int| parts[i]@)
}

/// The parts one after another, with `sep` between neighbours.
pub open spec fn join_text(parts: Seq<Seq<char>>, sep: Seq<char>) -> Seq<char>
    decreases parts.len(),
{
    if parts.len() == 0 {
        Seq::empty()
    } else if parts.len() == 1 {
        parts[0]
    } else {
        join_text(parts.drop_last(), sep) + sep + parts.last()
    }
}

/// Join the parts with `sep` between neighbours.
pub fn join(parts: &Vec<String>, sep: &str) -> (r: String)
    ensures
        r@ == join_text(texts(parts@), sep@),
{
    let mut out = String::new();
    let mut i: usize = 0;
    let ghost all = texts(parts@);
    while i < parts.len()
        invariant
            i <= parts.len(),
            all == texts(parts@),
            out@ == join_text(all.take(i as int), sep@),
        decreases parts.len() - i,
    {
        if i > 0 {
            out.append(sep);
        }
        out.append(parts[i].as_str());
        proof {
            let next = all.take(i + 1);
            assert(next.drop_last() =~= all.take(i as int));
            assert(next.last() == parts[i as int]@);
            if i == 0 {
                assert(out@ =~= next[0]);
            }
        }
        i = i + 1;
    }
    assert(all.take(i as int) =~= all);
    out
}

// --- taking text apart -------------------------------------------------------

/// The Unicode `White_Space` property.
pub open spec fn is_white_space(c: char) -> bool {
    ||| '\u{9}' <= c <= '\u{d}'
    ||| c == ' '
    ||| c == '\u{85}'
    ||| c == '\u{a0}'
    ||| c == '\u{1680}'
    ||| '\u{2000}' <= c <= '\u{200a}'
    ||| c == '\u{2028}'
    ||| c == '\u{2029}'
    ||| c == '\u{202f}'
    ||| c == '\u{205f}'
    ||| c == '\u{3000}'
}

/// Whether `c` is white space.
fn white_space(c: char) -> (r: bool)
    ensures
        r == is_white_space(c),
{
    ('\u{9}' <= c && c <= '\u{d}') || c == ' ' || c == '\u{85}' || c == '\u{a0}' || c == '\u{1680}'
        || ('\u{2000}' <= c && c <= '\u{200a}') || c == '\u{2028}' || c == '\u{2029}' || c
        == '\u{202f}' || c == '\u{205f}' || c == '\u{3000}'
}

/// `s` without its leading white space.
pub open spec fn trim_start_text(s: Seq<char>) -> Seq<char>
    decreases s.len(),
{
    if s.len() > 0 && is_white_space(s[0]) {
        trim_start_text(s.skip(1))
    } else {
        s
    }
}

/// `s` without its trailing white space.
pub open spec fn trim_end_text(s: Seq<char>) -> Seq<char>
    decreases s.len(),
{
    if s.len() > 0 && is_white_space(s.last()) {
        trim_end_text(s.drop_last())
    } else {
        s
    }
}

/// `s` without its leading and trailing white space.
pub open spec fn trim_text(s: Seq<char>) -> Seq<char> {
    trim_end_text(trim_start_text(s))
}

/// Drop leading and trailing white space.
pub fn trim(s: &[char]) -> (r: &[char])
    ensures
        r@ == trim_text(s@),
{
    let mut from: usize = 0;
    assert(s@.skip(0) =~= s@);
    while from < s.len() && white_space(s[from])
        invariant
            from <= s.len(),
            trim_start_text(s@) == trim_start_text(s@.skip(from as int)),
        decreases s.len() - from,
    {
        assert(s@.skip(from as int).skip(1) =~= s@.skip(from + 1));
        from = from + 1;
    }
    let ghost body = s@.skip(from as int);
    assert(trim_start_text(s@) == body);
    let mut to: usize = s.len();
    assert(s@.subrange(from as int, to as int) =~= body);
    while from < to && white_space(s[to - 1])
        invariant
            from <= to <= s.len(),
            trim_end_text(body) == trim_end_text(s@.subrange(from as int, to as int)),
        decreases to,
    {
        assert(s@.subrange(from as int, to as int).drop_last() =~= s@.subrange(
            from as int,
            to - 1,
        ));
        to = to - 1;
    }
    vstd::slice::slice_subrange(s, from, to)
}

/// The pieces of `s` between the occurrences of `sep`: one more than there
/// are separators, and possibly empty.
pub open spec fn fields_text(s: Seq<char>, sep: char) -> Seq<Seq<char>>
    decreases s.len(),
{
    if s.len() == 0 {
        seq![Seq::empty()]
    } else {
        let before = fields_text(s.drop_last(), sep);
        if s.last() == sep {
            before.push(Seq::empty())
        } else {
            before.drop_last().push(before.last().push(s.last()))
        }
    }
}

/// The characters of each field of a list.
pub open spec fn field_views(parts: Seq<Vec<char>>) -> Seq<Seq<char>> {
    Seq::new(parts.len(), |i: int| parts[i]@)
}

/// Split `s` at every `sep`.
pub fn fields(s: &[char], sep: char) -> (r: Vec<Vec<char>>)
    ensures
        field_views(r@) == fields_text(s@, sep),
{
    let mut done: Vec<Vec<char>> = Vec::new();
    let mut current: Vec<char> = Vec::new();
    let mut i: usize = 0;
    assert(fields_text(s@.take(0), sep) =~= field_views(done@).push(current@));
    while i < s.len()
        invariant
            i <= s.len(),
            fields_text(s@.take(i as int), sep) == field_views(done@).push(current@),
        decreases s.len() - i,
    {
        let c = s[i];
        let ghost before = field_views(done@).push(current@);
        proof {
            assert(s@.take(i + 1).drop_last() =~= s@.take(i as int));
            assert(s@.take(i + 1).last() == c);
            assert(before.drop_last() =~= field_views(done@));
        }
        if c == sep {
            done.push(current);
            current = Vec::new();
            assert(field_views(done@) =~= before);
            assert(current@ =~= Seq::<char>::empty());
        } else {
            current.push(c);
        }
        assert(fields_text(s@.take(i + 1), sep) =~= field_views(done@).push(current@));
        i = i + 1;
    }
    assert(s@.take(i as int) =~= s@);
    let ghost before = field_views(done@).push(current@);
    done.push(current);
    assert(field_views(done@) =~= before);
    done
}

/// The position of the first `c` in `s`; the length of `s` if there is none.
pub open spec fn first_index(s: Seq<char>, c: char) -> nat
    decreases s.len(),
{
    if s.len() == 0 || s[0] == c {
        0
    } else {
        1 + first_index(s.skip(1), c)
    }
}

/// The position of the first `c` in `s`, if there is one.
pub fn position(s: &[char], c: char) -> (r: Option<usize>)
    ensures
        r == if first_index(s@, c) < s@.len() {
            Some(first_index(s@, c) as usize)
        } else {
            None
        },
{
    let mut i: usize = 0;
    assert(s@.skip(0) =~= s@);
    while i < s.len()
        invariant
            i <= s.len(),
            first_index(s@, c) == i + first_index(s@.skip(i as int), c),
        decreases s.len() - i,
    {
        if s[i] == c {
            return Some(i);
        }
        assert(s@.skip(i as int).skip(1) =~= s@.skip(i + 1));
        i = i + 1;
    }
    None
}

/// The characters of `s`.
pub fn chars_of(s: &str) -> (r: Vec<char>)
    ensures
        r@ == s@,
{
    let mut out: Vec<char> = Vec::new();
    for c in it: s.chars()
        invariant
            it.seq() == s@,
            out@ == s@.take(it.index() as int),
    {
        out.push(c);
        assert(out@ =~= s@.take(it.index() + 1));
    }
    assert(s@.take(s@.len() as int) =~= s@);
    out
}

// --- numbers in text ---------------------------------------------------------

/// Whether `c` is a decimal digit.
pub open spec fn is_digit(c: char) -> bool {
    '0' <= c <= '9'
}

/// The number that a run of decimal digits denotes.
pub open spec fn digits_value(s: Seq<char>) -> nat
    decreases s.len(),
{
    if s.len() == 0 {
        0
    } else {
        digits_value(s.drop_last()) * 10 + ((s.last() as int) - ('0' as int)) as nat
    }
}

/// `s` without one leading plus sign. A lone plus sign stays.
pub open spec fn unsigned_part(s: Seq<char>) -> Seq<char> {
    if s.len() > 1 && s[0] == '+' {
        s.skip(1)
    } else {
        s
    }
}

/// The number that `s` denotes, if `s` is a decimal numeral, with or without a
/// plus sign, of a number no greater than `max`.
pub open spec fn number_text(s: Seq<char>, max: nat) -> Option<nat> {
    let digits = unsigned_part(s);
    if digits.len() > 0 && (forall|i: int|
        0 <= i < digits.len() ==> is_digit(#[trigger] digits[i])) && digits_value(digits) <= max {
        Some(digits_value(digits))
    } else {
        None
    }
}

/// A longer run of digits denotes no smaller number.
proof fn lemma_digits_value_grows(s: Seq<char>, k: int)
    requires
        0 <= k <= s.len(),
        forall|i: int| 0 <= i < s.len() ==> is_digit(#[trigger] s[i]),
    ensures
        digits_value(s.take(k)) <= digits_value(s),
    decreases s.len() - k,
{
    if k == s.len() {
        assert(s.take(k) =~= s);
    } else {
        lemma_digits_value_grows(s, k + 1);
        assert(s.take(k + 1).drop_last() =~= s.take(k));
        assert(s.take(k + 1).last() == s[k]);
        assert(is_digit(s[k]));
    }
}

/// Read a decimal number no greater than `max`.
pub fn number(s: &[char], max: u32) -> (r: Option<u32>)
    ensures
        match r {
            Some(v) => number_text(s@, max as nat) == Some(v as nat),
            None => number_text(s@, max as nat) is None,
        },
{
    let from: usize = if s.len() > 1 && s[0] == '+' {
        1
    } else {
        0
    };
    let ghost digits = unsigned_part(s@);
    assert(digits =~= s@.skip(from as int));
    if s.len() == 0 {
        return None;
    }
    let mut value: u64 = 0;
    let mut i: usize = from;
    assert(digits.take(0) =~= Seq::<char>::empty());
    while i < s.len()
        invariant
            from <= i <= s.len(),
            digits == s@.skip(from as int),
            digits == unsigned_part(s@),
            forall|j: int| 0 <= j < i - from ==> is_digit(#[trigger] digits[j]),
            value == digits_value(digits.take(i - from)),
            value <= max,
        decreases s.len() - i,
    {
        let c = s[i];
        assert(digits[i - from] == c);
        if c < '0' || c > '9' {
            assert(!is_digit(digits[i - from]));
            return None;
        }
        let digit = digit_value(c);
        proof {
            assert(digits.take(i - from + 1).drop_last() =~= digits.take(i - from));
            assert(digits.take(i - from + 1).last() == c);
        }
        value = value * 10 + digit as u64;
        i = i + 1;
        if value > max as u64 {
            proof {
                if forall|j: int| 0 <= j < digits.len() ==> is_digit(#[trigger] digits[j]) {
                    lemma_digits_value_grows(digits, i - from);
                }
            }
            return None;
        }
    }
    assert(digits.take(i - from) =~= digits);
    Some(value as u32)
}

/// The value of a decimal digit.
fn digit_value(c: char) -> (r: u8)
    requires
        is_digit(c),
    ensures
        r == (c as int) - ('0' as int),
{
    match c {
        '0' => 0,
        '1' => 1,
        '2' => 2,
        '3' => 3,
        '4' => 4,
        '5' => 5,
        '6' => 6,
        '7' => 7,
        '8' => 8,
        _ => 9,
    }
}

// --- numerals and lists read back --------------------------------------------

/// A decimal numeral consists of digits and denotes the number it was made of.
pub proof fn numeral_denotes_its_number(n: nat)
    ensures
        dec_text(n).len() > 0,
        forall|i: int| 0 <= i < dec_text(n).len() ==> is_digit(#[trigger] dec_text(n)[i]),
        digits_value(dec_text(n)) == n,
    decreases n,
{
    if n >= 10 {
        numeral_denotes_its_number(n / 10);
        assert(dec_text(n).drop_last() =~= dec_text(n / 10));
    } else {
        assert(dec_text(n).drop_last() =~= Seq::<char>::empty());
        assert(digits_value(Seq::<char>::empty()) == 0);
    }
}

/// A numeral is read back as the number it was made of.
pub proof fn numeral_is_read_back(n: nat, max: nat)
    requires
        n <= max,
    ensures
        number_text(dec_text(n), max) == Some(n),
{
    numeral_denotes_its_number(n);
    assert(is_digit(dec_text(n)[0]));
}

/// Text that neither starts nor ends in white space is not changed by trimming.
pub proof fn trimming_keeps_tight_text(s: Seq<char>)
    requires
        s.len() > 0 ==> !is_white_space(s[0]) && !is_white_space(s.last()),
    ensures
        trim_text(s) == s,
{
}

proof fn lemma_fields_single(s: Seq<char>, sep: char)
    requires
        !s.contains(sep),
    ensures
        fields_text(s, sep) == seq![s],
    decreases s.len(),
{
    if s.len() > 0 {
        assert(s[s.len() - 1] != sep);
        assert forall|i: int| 0 <= i < s.drop_last().len() implies s.drop_last()[i] != sep by {
            assert(s[i] != sep);
        }
        lemma_fields_single(s.drop_last(), sep);
        assert(fields_text(s, sep) =~= seq![s.drop_last().push(s.last())]);
        assert(s.drop_last().push(s.last()) =~= s);
    } else {
        assert(s =~= Seq::<char>::empty());
    }
}

proof fn lemma_fields_append(a: Seq<char>, b: Seq<char>, sep: char)
    requires
        !b.contains(sep),
    ensures
        fields_text(a + seq![sep] + b, sep) == fields_text(a, sep).push(b),
    decreases b.len(),
{
    let x = a + seq![sep];
    let whole = x + b;
    if b.len() == 0 {
        assert(whole.drop_last() =~= a);
        assert(whole.last() == sep);
        assert(b =~= Seq::<char>::empty());
    } else {
        assert(b[b.len() - 1] != sep);
        assert forall|i: int| 0 <= i < b.drop_last().len() implies b.drop_last()[i] != sep by {
            assert(b[i] != sep);
        }
        lemma_fields_append(a, b.drop_last(), sep);
        assert(whole.drop_last() =~= x + b.drop_last());
        assert(whole.last() == b.last());
        let before = fields_text(a, sep).push(b.drop_last());
        assert(before.drop_last() =~= fields_text(a, sep));
        assert(b.drop_last().push(b.last()) =~= b);
    }
}

/// Joining and splitting undo each other: pieces without the separator that are
/// joined by it are the fields of the joined text.
pub proof fn joined_pieces_are_the_fields(parts: Seq<Seq<char>>, sep: char)
    requires
        parts.len() > 0,
        forall|i: int| 0 <= i < parts.len() ==> !(#[trigger] parts[i]).contains(sep),
    ensures
        fields_text(join_text(parts, seq![sep]), sep) == parts,
    decreases parts.len(),
{
    if parts.len() == 1 {
        lemma_fields_single(parts[0], sep);
        assert(parts =~= seq![parts[0]]);
    } else {
        let front = parts.drop_last();
        assert forall|i: int| 0 <= i < front.len() implies !(#[trigger] front[i]).contains(sep) by {
            assert(front[i] == parts[i]);
        }
        joined_pieces_are_the_fields(front, sep);
        assert(!parts[parts.len() - 1].contains(sep));
        lemma_fields_append(join_text(front, seq![sep]), parts.last(), sep);
        assert(front.push(parts.last()) =~= parts);
    }
}

// --- what numerals say -------------------------------------------------------

/// The value of a hexadecimal digit, in either case.
pub open spec fn hex_digit_value(c: char) -> int {
    if '0' <= c <= '9' {
        c as int - '0' as int
    } else if 'A' <= c <= 'F' {
        10 + (c as int - 'A' as int)
    } else if 'a' <= c <= 'f' {
        10 + (c as int - 'a' as int)
    } else {
        -1
    }
}

/// The number that a run of hexadecimal digits denotes, in either case.
pub open spec fn hex_value(s: Seq<char>) -> int
    decreases s.len(),
{
    if s.len() == 0 {
        0
    } else {
        16 * hex_value(s.drop_last()) + hex_digit_value(s.last())
    }
}

/// Numerals are positional: each digit more counts the ones before it tenfold,
/// and adds its own distance from zero.
pub proof fn digits_are_positional(s: Seq<char>, c: char)
    requires
        is_digit(c),
    ensures
        digits_value(Seq::<char>::empty()) == 0,
        digits_value(s.push(c)) == 10 * digits_value(s) + (c as int - '0' as int),
        is_digit(c) <==> c == '0' || c == '1' || c == '2' || c == '3' || c == '4' || c == '5' || c
            == '6' || c == '7' || c == '8' || c == '9',
{
    assert(s.push(c).drop_last() =~= s);
}

/// A decimal numeral starts with no zero that it could do without, and different
/// numbers have different numerals.
pub proof fn numerals_are_short(n: nat, m: nat)
    ensures
        n > 0 ==> dec_text(n)[0] != '0',
        dec_text(n) == dec_text(m) ==> n == m,
    decreases n,
{
    numeral_denotes_its_number(n);
    numeral_denotes_its_number(m);
    if n >= 10 {
        numerals_are_short(n / 10, 0);
        numeral_denotes_its_number(n / 10);
        assert(dec_text(n)[0] == dec_text(n / 10)[0]);
    }
}

proof fn lemma_upper_digit(d: int)
    requires
        0 <= d < 16,
    ensures
        hex_digit_value(upper_digit(d)) == d,
        d < 10 ==> is_digit(upper_digit(d)),
        d >= 10 ==> 'A' <= upper_digit(d) <= 'F',
{
}

/// How many numbers a number of hexadecimal digits can denote.
spec fn hex_numbers(width: nat) -> nat
    decreases width,
{
    if width == 0 {
        1
    } else {
        16 * hex_numbers((width - 1) as nat)
    }
}

proof fn lemma_hex_fixed(n: nat, width: nat)
    ensures
        hex_fixed(n, width).len() == width,
        forall|i: int|
            0 <= i < width ==> is_digit(#[trigger] hex_fixed(n, width)[i]) || 'A' <= hex_fixed(
                n,
                width,
            )[i] <= 'F',
        n < hex_numbers(width) ==> hex_value(hex_fixed(n, width)) == n,
    decreases width,
{
    if width > 0 {
        let w = (width - 1) as nat;
        lemma_hex_fixed(n / 16, w);
        lemma_upper_digit((n % 16) as int);
        assert(hex_fixed(n, width).drop_last() =~= hex_fixed(n / 16, w));
    }
}

/// A word as four hexadecimal digits, a byte as two: upper case, and they denote
/// the word or the byte.
pub proof fn hexadecimal_denotes_its_number(w: u16, b: u8)
    ensures
        hex_fixed(w as nat, 4).len() == 4,
        hex_value(hex_fixed(w as nat, 4)) == w,
        forall|i: int|
            0 <= i < 4 ==> is_digit(#[trigger] hex_fixed(w as nat, 4)[i]) || 'A' <= hex_fixed(
                w as nat,
                4,
            )[i] <= 'F',
        hex_fixed(b as nat, 2).len() == 2,
        hex_value(hex_fixed(b as nat, 2)) == b,
        forall|i: int|
            0 <= i < 2 ==> is_digit(#[trigger] hex_fixed(b as nat, 2)[i]) || 'A' <= hex_fixed(
                b as nat,
                2,
            )[i] <= 'F',
{
    reveal_with_fuel(hex_numbers, 5);
    lemma_hex_fixed(w as nat, 4);
    lemma_hex_fixed(b as nat, 2);
}

/// A byte in lower case: two digits that denote it, no letter of upper case.
pub proof fn lower_case_denotes_its_byte(b: u8)
    ensures
        hex_byte(b).len() == 2,
        hex_value(hex_byte(b)) == b,
        forall|i: int|
            0 <= i < 2 ==> is_digit(#[trigger] hex_byte(b)[i]) || 'a' <= hex_byte(b)[i] <= 'f',
{
    let s = hex_byte(b);
    assert(s.drop_last() =~= seq![s[0]]);
    assert(s.drop_last().drop_last() =~= Seq::<char>::empty());
    reveal_with_fuel(hex_value, 3);
}

/// A number in a fixed number of digits denotes what these can hold of it.
pub proof fn fixed_digits_denote_their_number(n: nat)
    ensures
        dec_fixed(n, 2).len() == 2,
        n < 100 ==> digits_value(dec_fixed(n, 2)) == n,
        dec_fixed(n, 3).len() == 3,
        n < 1000 ==> digits_value(dec_fixed(n, 3)) == n,
        forall|i: int| 0 <= i < 2 ==> is_digit(#[trigger] dec_fixed(n, 2)[i]),
        forall|i: int| 0 <= i < 3 ==> is_digit(#[trigger] dec_fixed(n, 3)[i]),
{
    reveal_with_fuel(dec_fixed, 4);
    reveal_with_fuel(digits_value, 4);
    let two = dec_fixed(n, 2);
    let three = dec_fixed(n, 3);
    assert(two.drop_last() =~= dec_fixed(n / 10, 1));
    assert(two.drop_last().drop_last() =~= Seq::<char>::empty());
    assert(three.drop_last() =~= dec_fixed(n / 10, 2));
    assert(three.drop_last().drop_last() =~= dec_fixed(n / 10 / 10, 1));
    assert(three.drop_last().drop_last().drop_last() =~= Seq::<char>::empty());
}

/// Text that is aligned to the right stays whole at the end, with nothing but
/// spaces before it, no more of them than the width asks for.
pub proof fn alignment_only_adds_spaces(s: Seq<char>, width: nat)
    ensures
        s.is_suffix_of(right_aligned(s, width)),
        right_aligned(s, width).len() == if s.len() < width {
            width
        } else {
            s.len()
        },
        forall|i: int|
            0 <= i < right_aligned(s, width).len() - s.len() ==> #[trigger] right_aligned(
                s,
                width,
            )[i] == ' ',
{
    let r = right_aligned(s, width);
    assert(r.subrange(r.len() - s.len(), r.len() as int) =~= s);
}

/// Joining appends each part behind the ones before it, with the separator in
/// between.
pub proof fn joining_appends(parts: Seq<Seq<char>>, more: Seq<char>, sep: Seq<char>)
    ensures
        join_text(seq![more], sep) == more,
        join_text(Seq::<Seq<char>>::empty(), sep) == Seq::<char>::empty(),
        parts.len() > 0 ==> join_text(parts.push(more), sep) == join_text(parts, sep) + sep + more,
{
    assert(parts.push(more).drop_last() =~= parts);
}

/// Trimming takes white space off both ends, all of it, and nothing else.
pub proof fn trimming_takes_only_white_space(s: Seq<char>)
    ensures
        exists|i: int, j: int| #[trigger]
            trimmed_to(s, i, j) && trim_text(s) == s.subrange(i, j),
{
    let i = lemma_trim_start(s);
    let t = trim_start_text(s);
    let n = lemma_trim_end(t);
    assert(trim_text(s) =~= s.subrange(i, i + n));
    assert(trimmed_to(s, i, i + n)) by {
        assert forall|k: int| i + n <= k < s.len() implies is_white_space(#[trigger] s[k]) by {
            assert(t[k - i] == s[k]);
        }
        if n > 0 {
            assert(t[n - 1] == s[i + n - 1]);
            assert(t[0] == s[i]);
        }
    }
}

/// Whether what lies between two places neither starts nor ends in white space,
/// and all that lies around it is white space.
pub open spec fn trimmed_to(s: Seq<char>, i: int, j: int) -> bool {
    &&& 0 <= i <= j <= s.len()
    &&& forall|k: int| 0 <= k < i ==> is_white_space(#[trigger] s[k])
    &&& forall|k: int| j <= k < s.len() ==> is_white_space(#[trigger] s[k])
    &&& i < j ==> !is_white_space(s[i]) && !is_white_space(s[j - 1])
}

proof fn lemma_trim_start(s: Seq<char>) -> (i: int)
    ensures
        0 <= i <= s.len(),
        trim_start_text(s) == s.skip(i),
        forall|k: int| 0 <= k < i ==> is_white_space(#[trigger] s[k]),
        i < s.len() ==> !is_white_space(s[i]),
    decreases s.len(),
{
    if s.len() > 0 && is_white_space(s[0]) {
        let j = lemma_trim_start(s.skip(1));
        assert(s.skip(1).skip(j) =~= s.skip(j + 1));
        assert forall|k: int| 0 <= k < j + 1 implies is_white_space(#[trigger] s[k]) by {
            if k > 0 {
                assert(s.skip(1)[k - 1] == s[k]);
            }
        }
        j + 1
    } else {
        assert(s.skip(0) =~= s);
        0
    }
}

proof fn lemma_trim_end(s: Seq<char>) -> (n: int)
    ensures
        0 <= n <= s.len(),
        trim_end_text(s) == s.take(n),
        forall|k: int| n <= k < s.len() ==> is_white_space(#[trigger] s[k]),
        n > 0 ==> !is_white_space(s[n - 1]),
    decreases s.len(),
{
    if s.len() > 0 && is_white_space(s.last()) {
        let m = lemma_trim_end(s.drop_last());
        assert(s.drop_last().take(m) =~= s.take(m));
        assert forall|k: int| m <= k < s.len() implies is_white_space(#[trigger] s[k]) by {
            if k < s.len() - 1 {
                assert(s.drop_last()[k] == s[k]);
            }
        }
        m
    } else {
        assert(s.take(s.len() as int) =~= s);
        s.len() as int
    }
}

/// Space, tab and the ends of lines are white space; what can be part of a list
/// of numbers is not.
pub proof fn white_space_is_no_content(c: char)
    requires
        is_digit(c) || c == ',' || c == '-' || c == '+' || c == '*',
    ensures
        !is_white_space(c),
        is_white_space(' ') && is_white_space('\t') && is_white_space('\n') && is_white_space('\r'),
{
}

/// The first place of a character is where it stands and where it does not stand
/// before; a text without it has none.
pub proof fn first_place_is_the_first(s: Seq<char>, c: char)
    ensures
        first_index(s, c) <= s.len(),
        first_index(s, c) < s.len() ==> s[first_index(s, c) as int] == c,
        forall|i: int| 0 <= i < first_index(s, c) ==> #[trigger] s[i] != c,
    decreases s.len(),
{
    if s.len() > 0 && s[0] != c {
        first_place_is_the_first(s.skip(1), c);
        assert forall|i: int| 0 <= i < first_index(s, c) implies #[trigger] s[i] != c by {
            if i > 0 {
                assert(s.skip(1)[i - 1] == s[i]);
            }
        }
    }
}

/// Splitting loses nothing: the fields joined again are the text, and no field
/// holds the separator.
pub proof fn fields_joined_are_the_text(s: Seq<char>, sep: char)
    ensures
        fields_text(s, sep).len() > 0,
        join_text(fields_text(s, sep), seq![sep]) == s,
        forall|i: int|
            0 <= i < fields_text(s, sep).len() ==> !(#[trigger] fields_text(s, sep)[i]).contains(
                sep,
            ),
    decreases s.len(),
{
    let fields = fields_text(s, sep);
    if s.len() > 0 {
        let front = s.drop_last();
        let before = fields_text(front, sep);
        fields_joined_are_the_text(front, sep);
        let joined = join_text(before, seq![sep]);
        assert(s =~= front.push(s.last()));
        if s.last() == sep {
            joining_appends(before, Seq::empty(), seq![sep]);
            assert(joined + seq![sep] + Seq::<char>::empty() =~= s);
        } else {
            let grown = before.last().push(s.last());
            let rest = before.drop_last();
            assert(rest.push(before.last()) =~= before);
            joining_appends(rest, before.last(), seq![sep]);
            joining_appends(rest, grown, seq![sep]);
            if rest.len() == 0 {
                assert(before =~= seq![before.last()]);
                assert(fields =~= seq![grown]);
                joining_appends(rest, grown, seq![sep]);
            } else {
                assert(join_text(rest, seq![sep]) + seq![sep] + grown =~= s);
            }
            assert(!before[before.len() - 1].contains(sep));
            assert(!grown.contains(sep)) by {
                if grown.contains(sep) {
                    let k = choose|k: int| 0 <= k < grown.len() && grown[k] == sep;
                    assert(before.last()[k] == sep);
                }
            }
        }
        assert forall|i: int| 0 <= i < fields.len() implies !(#[trigger] fields[i]).contains(
            sep,
        ) by {
            if i < fields.len() - 1 {
                assert(fields[i] == before[i]);
            }
        }
    } else {
        assert(fields =~= seq![Seq::<char>::empty()]);
        joining_appends(fields, Seq::empty(), seq![sep]);
        assert(s =~= Seq::<char>::empty());
    }
}

/// Only numerals are numbers: a text is read as a number exactly if it is, behind
/// at most one plus sign, nothing but digits, at least one of them, and denotes
/// no more than the limit; the number is what the digits denote.
pub proof fn only_numerals_are_numbers(digits: Seq<char>, max: nat)
    requires
        digits.len() > 0,
        digits[0] != '+',
    ensures
        ({
            let all = forall|i: int| 0 <= i < digits.len() ==> is_digit(#[trigger] digits[i]);
            let read = if all && digits_value(digits) <= max {
                Some(digits_value(digits))
            } else {
                None
            };
            &&& number_text(digits, max) == read
            &&& number_text(seq!['+'] + digits, max) == read
        }),
        number_text(Seq::<char>::empty(), max) is None,
        number_text(seq!['+'], max) is None,
        number_text(seq!['+', '+'] + digits, max) is None,
{
    assert((seq!['+'] + digits).skip(1) =~= digits);
    let signed = seq!['+', '+'] + digits;
    assert(signed.skip(1)[0] == '+');
    assert(!is_digit(signed.skip(1)[0]));
    assert(!is_digit(seq!['+'][0]));
}

/// White space is what Unicode counts as such, by code points: tab to carriage
/// return, space, next line, the spaces that do not break, the ones of typography, and
/// the separators of lines and paragraphs.
pub proof fn white_space_by_code_point(c: char)
    ensures
        is_white_space(c) <==> {
            let p = c as int;
            ||| 9 <= p <= 13
            ||| p == 32
            ||| p == 133
            ||| p == 160
            ||| p == 5760
            ||| 8192 <= p <= 8202
            ||| p == 8232
            ||| p == 8233
            ||| p == 8239
            ||| p == 8287
            ||| p == 12288
        },
{
}

} // verus!
