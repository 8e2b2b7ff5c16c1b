//! Text building blocks.

use mbshark2::text::{
    chars_of, dec, dec_right_aligned, fields, hex2, hex2_lower, hex4, join, number, position,
    same_text, trim,
};

fn chars(s: &str) -> Vec<char> {
    s.chars().collect()
}

#[test]
fn numerals() {
    assert_eq!(dec(0), "0");
    assert_eq!(dec(u64::MAX), "18446744073709551615");
    assert_eq!(hex4(0xCDC5), "CDC5");
    assert_eq!(hex4(0x0A), "000A");
    assert_eq!(hex2(0xFF), "FF");
    assert_eq!(hex2_lower(0xFF), "ff");
    assert_eq!(hex2_lower(0x09), "09");
    assert_eq!(dec_right_aligned(1, 7), "      1");
    assert_eq!(dec_right_aligned(12_345_678, 7), "12345678");
}

#[test]
fn numbers_are_read_back() {
    for n in [0u64, 9, 10, 255, 9600, 4_294_967_295] {
        assert_eq!(number(&chars(&dec(n)), u32::MAX), Some(n as u32));
    }
    assert_eq!(number(&chars("256"), 255), None);
    assert_eq!(number(&chars("+12"), 255), Some(12));
    assert_eq!(number(&chars("++12"), 255), None);
    assert_eq!(number(&chars("+"), 255), None);
    assert_eq!(number(&chars(""), 255), None);
    assert_eq!(number(&chars("-1"), 255), None);
    assert_eq!(number(&chars("1 "), 255), None);
    assert_eq!(number(&chars("٣"), 255), None);
    assert_eq!(number(&chars("00000000000000000000000000001"), 255), Some(1));
}

#[test]
fn trimming_drops_white_space() {
    assert_eq!(trim(&chars("\u{a0}\u{3000} a b\t\n")), &chars("a b")[..]);
    assert_eq!(trim(&chars(" \r\n")), &[] as &[char]);
    // What std takes for white space, and nothing else.
    for c in (0u32..=0x3100).filter_map(char::from_u32) {
        assert_eq!(trim(&[c]).is_empty(), c.is_whitespace());
    }
}

#[test]
fn fields_and_joining_undo_each_other() {
    let parts = vec!["1".to_string(), "".to_string(), "3-5".to_string()];
    let text = join(&parts, ",");
    assert_eq!(text, "1,,3-5");
    let back: Vec<String> =
        fields(&chars(&text), ',').into_iter().map(|f| f.into_iter().collect()).collect();
    assert_eq!(back, parts);
    assert_eq!(fields(&[], ','), vec![Vec::<char>::new()]);
    assert_eq!(join(&vec![], ","), "");
}

#[test]
fn finding_and_comparing() {
    assert_eq!(position(&chars("a-b-c"), '-'), Some(1));
    assert_eq!(position(&chars("abc"), '-'), None);
    assert!(same_text("Even", "Even"));
    assert!(!same_text("Even", "even"));
    assert_eq!(chars_of("aé⚠"), vec!['a', 'é', '⚠']);
}
