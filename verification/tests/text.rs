//! Text, numbers and bytes.

use mayos::arith::{div, div_any, floor_div, to_signed};
use mayos::bytes::{get_be16, get_be32, get_le16, get_le32, get_le64, push_be32, push_le16, push_le32, sub_bytes};
use mayos::text::{
    count_run, find_char, is_white_char, join_with, lowered, parse_uint, push_dec, push_dec_zeros, push_hex, push_int,
    push_left_aligned, push_padded, rfind_char, split_on, text_of_bytes, to_chars, to_text, trimmed, trimmed_end_char,
};

fn text(f: impl Fn(&mut Vec<char>)) -> String {
    let mut v: Vec<char> = Vec::new();
    f(&mut v);
    to_text(&v)
}

#[test]
fn text_goes_to_characters_and_back() {
    assert_eq!(to_text(&to_chars("häuser")), "häuser");
    assert_eq!(to_chars("aé").len(), 2);
}

#[test]
fn broken_utf8_is_read_with_replacements() {
    assert_eq!(text_of_bytes(b"ok"), "ok");
    assert_eq!(text_of_bytes(&[b'a', 0xff, b'b']), "a\u{fffd}b");
    assert_eq!(text_of_bytes("é".as_bytes()), "é");
}

#[test]
fn white_space_is_the_unicode_property() {
    for n in 0..0x11_0000u32 {
        if let Some(c) = char::from_u32(n) {
            assert_eq!(is_white_char(c), c.is_whitespace(), "{:x}", n);
        }
    }
}

#[test]
fn trimming_takes_white_space_from_both_ends() {
    assert_eq!(to_text(&trimmed(&to_chars(" \t a b \n"))), "a b");
    assert_eq!(to_text(&trimmed(&to_chars("   "))), "");
    assert_eq!(to_text(&trimmed_end_char(&to_chars("a\r\r"), '\r')), "a");
}

#[test]
fn splitting_and_joining() {
    let parts = split_on(&to_chars("a.b..c"), '.');
    let texts: Vec<String> = parts.iter().map(|p| to_text(p)).collect();
    assert_eq!(texts, ["a", "b", "", "c"]);
    assert_eq!(to_text(&join_with(&parts, '.')), "a.b..c");
    assert_eq!(split_on(&[], '.').len(), 1);
}

#[test]
fn characters_are_found() {
    let s = to_chars("a/b/c");
    assert_eq!(find_char(&s, '/'), Some(1));
    assert_eq!(rfind_char(&s, '/'), Some(3));
    assert_eq!(find_char(&s, 'x'), None);
    assert_eq!(count_run(&to_chars("  a"), ' '), 2);
}

#[test]
fn lower_case_is_ascii_only() {
    assert_eq!(to_text(&lowered(&to_chars("ABCÄ"))), "abcÄ");
}

#[test]
fn numbers_are_written() {
    assert_eq!(text(|v| push_dec(v, 0)), "0");
    assert_eq!(text(|v| push_dec(v, u64::MAX)), "18446744073709551615");
    assert_eq!(text(|v| push_hex(v, 0xdead_beef)), "deadbeef");
    assert_eq!(text(|v| push_dec_zeros(v, 7, 3)), "007");
    assert_eq!(text(|v| push_int(v, -5)), "-5");
    assert_eq!(text(|v| push_int(v, i64::MIN)), "-9223372036854775808");
    assert_eq!(text(|v| push_padded(v, &to_chars("ab"), 4, '.')), "..ab");
    assert_eq!(text(|v| push_left_aligned(v, &to_chars("ab"), 4, '.')), "ab..");
}

#[test]
fn numbers_are_read() {
    assert_eq!(parse_uint(&to_chars("255"), 255), Some(255));
    assert_eq!(parse_uint(&to_chars("256"), 255), None);
    assert_eq!(parse_uint(&to_chars("+7"), 255), Some(7));
    assert_eq!(parse_uint(&to_chars("-7"), 255), None);
    assert_eq!(parse_uint(&to_chars(""), 255), None);
    assert_eq!(parse_uint(&to_chars("1x"), 255), None);
    assert_eq!(parse_uint(&to_chars("18446744073709551616"), u64::MAX), None);
}

#[test]
fn bytes_in_both_orders() {
    let b = [1u8, 2, 3, 4, 5, 6, 7, 8];
    assert_eq!(get_le16(&b, 0), Some(0x0201));
    assert_eq!(get_le32(&b, 1), Some(0x0504_0302));
    assert_eq!(get_le64(&b, 0), Some(0x0807_0605_0403_0201));
    assert_eq!(get_be16(&b, 6), Some(0x0708));
    assert_eq!(get_be32(&b, 4), Some(0x0506_0708));
    assert_eq!(get_le32(&b, 5), None);
    assert_eq!(get_be16(&b, 8), None);
    let mut out = Vec::new();
    push_le16(&mut out, 0x1234);
    push_le32(&mut out, 0x5678_9abc);
    push_be32(&mut out, 0x1122_3344);
    assert_eq!(out, [0x34, 0x12, 0xbc, 0x9a, 0x78, 0x56, 0x11, 0x22, 0x33, 0x44]);
    assert_eq!(sub_bytes(&out, 1, 3), [0x12, 0xbc]);
}

#[test]
fn division_rounds_as_the_processor_does() {
    assert_eq!(div(-7, 2), -3);
    assert_eq!(div(7, -2), -3);
    assert_eq!(div_any(i64::MIN, 2), i64::MIN / 2);
    assert_eq!(floor_div(-7, 2), -4);
    assert_eq!(floor_div(7, 2), 3);
}

#[test]
fn words_are_read_as_signed() {
    assert_eq!(to_signed(0xffff_ffff), -1);
    assert_eq!(to_signed(0x8000_0000), i32::MIN);
    assert_eq!(to_signed(0x7fff_ffff), i32::MAX);
}
