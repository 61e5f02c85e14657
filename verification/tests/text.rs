use rusty_zenith::request::{check_base64_text, parse_query, position, Query};
use rusty_zenith::text::{
    append, append_str, bytes_eq, decimal, eq_ignore_case, find, hex_digit, lower_byte,
    matches_at, parse_decimal, parse_digits, starts_with, str_eq, text_of,
};

#[test]
fn numbers_are_written_in_decimal() {
    assert_eq!(decimal(0), b"0".to_vec());
    assert_eq!(decimal(7), b"7".to_vec());
    assert_eq!(decimal(10), b"10".to_vec());
    assert_eq!(decimal(16000), b"16000".to_vec());
    assert_eq!(decimal(u64::MAX), b"18446744073709551615".to_vec());
}

#[test]
fn decimal_numbers_are_read() {
    assert_eq!(parse_decimal(b"0"), Some(0));
    assert_eq!(parse_decimal(b"007"), Some(7));
    assert_eq!(parse_decimal(b"8192"), Some(8192));
    assert_eq!(parse_decimal(usize::MAX.to_string().as_bytes()), Some(usize::MAX));
    assert_eq!(parse_decimal(b"18446744073709551616"), None);
    assert_eq!(parse_decimal(b"99999999999999999999999"), None);
    assert_eq!(parse_decimal(b""), None);
    assert_eq!(parse_decimal(b"+1"), Some(1));
    assert_eq!(parse_decimal(b"+0042"), Some(42));
    assert_eq!(parse_decimal(b"+"), None);
    assert_eq!(parse_decimal(b"++1"), None);
    assert_eq!(parse_decimal(b"1+"), None);
    assert_eq!(parse_decimal(b"+18446744073709551616"), None);
    assert_eq!(parse_decimal(b"-1"), None);
    assert_eq!(parse_decimal(b"1a"), None);
    assert_eq!(parse_decimal(b" 1"), None);
    assert_eq!(parse_decimal(b"1.0"), None);
}

#[test]
fn digits_alone_take_no_sign() {
    assert_eq!(parse_digits(b"12"), Some(12));
    assert_eq!(parse_digits(b"+12"), None);
    assert_eq!(parse_digits(b""), None);
}

#[test]
fn what_is_written_is_read_back() {
    for n in [0u64, 1, 9, 10, 99, 100, 4096, 65535, 4294967295] {
        assert_eq!(parse_decimal(&decimal(n)), Some(n as usize));
    }
}

#[test]
fn hexadecimal_digits_have_their_values() {
    assert_eq!(hex_digit(b'0'), Some(0));
    assert_eq!(hex_digit(b'9'), Some(9));
    assert_eq!(hex_digit(b'a'), Some(10));
    assert_eq!(hex_digit(b'f'), Some(15));
    assert_eq!(hex_digit(b'A'), Some(10));
    assert_eq!(hex_digit(b'F'), Some(15));
    assert_eq!(hex_digit(b'g'), None);
    assert_eq!(hex_digit(b'G'), None);
    assert_eq!(hex_digit(b'/'), None);
    assert_eq!(hex_digit(b':'), None);
    assert_eq!(hex_digit(b'@'), None);
    assert_eq!(hex_digit(b'`'), None);
}

#[test]
fn bytes_are_compared_and_searched() {
    assert!(bytes_eq(b"", b""));
    assert!(bytes_eq(b"abc", b"abc"));
    assert!(!bytes_eq(b"abc", b"abd"));
    assert!(!bytes_eq(b"abc", b"ab"));
    assert!(str_eq("\u{e9}t\u{e9}", "\u{e9}t\u{e9}"));
    assert!(!str_eq("ete", "\u{e9}t\u{e9}"));
    assert!(starts_with(b"/admin/x", b"/admin"));
    assert!(starts_with(b"abc", b""));
    assert!(!starts_with(b"/adm", b"/admin"));
    assert!(matches_at(b"hello", b"llo", 2));
    assert!(!matches_at(b"hello", b"llo", 3));
    assert!(matches_at(b"hello", b"", 5));
    assert!(!matches_at(b"hello", b"", 6));
    assert_eq!(find(b"aXbXc", b"X"), Some(1));
    assert_eq!(find(b"abcabc", b"bc"), Some(1));
    assert_eq!(find(b"abc", b"abcd"), None);
    assert_eq!(find(b"abc", b"d"), None);
    assert_eq!(find(b"abc", b""), Some(0));
    assert_eq!(find(b"", b""), Some(0));
    assert_eq!(find(b"aab", b"ab"), Some(1));
    assert_eq!(position(b"a=b=c", b'='), 1);
    assert_eq!(position(b"abc", b'='), 3);
    assert_eq!(position(b"", b'='), 0);
}

#[test]
fn case_of_letters_is_set_aside() {
    assert_eq!(lower_byte(b'A'), b'a');
    assert_eq!(lower_byte(b'Z'), b'z');
    assert_eq!(lower_byte(b'a'), b'a');
    assert_eq!(lower_byte(b'@'), b'@');
    assert_eq!(lower_byte(b'['), b'[');
    assert_eq!(lower_byte(0xc9), 0xc9);
    assert!(eq_ignore_case(b"Content-Type", b"content-type"));
    assert!(eq_ignore_case(b"", b""));
    assert!(!eq_ignore_case(b"Content-Type", b"content_type"));
    assert!(!eq_ignore_case(b"a", b"ab"));
    assert!(!eq_ignore_case("\u{c9}".as_bytes(), "\u{e9}".as_bytes()));
}

#[test]
fn bytes_are_appended_and_read_as_text() {
    let mut v = b"a".to_vec();
    append(&mut v, b"bc");
    append_str(&mut v, "d\u{e9}");
    assert_eq!(v, "abcd\u{e9}".as_bytes().to_vec());
    assert_eq!(text_of(&v), Some("abcd\u{e9}".to_string()));
    assert_eq!(text_of(&v[..5]), None);
    assert_eq!(text_of(b""), Some(String::new()));
    assert_eq!(text_of(&[0xff]), None);
    assert_eq!(text_of(&[0xc0, 0x80]), None);
    assert_eq!(text_of(&[0xed, 0xa0, 0x80]), None);
}

#[test]
fn base64_text_has_its_shape() {
    for text in ["", "QUJD", "QUI=", "QQ==", "ab+/", "abcdQQ=="] {
        assert!(check_base64_text(text.as_bytes()), "{}", text);
    }
    for text in ["Q", "QU", "QUJ", "Q===", "====", "QU=J", "=QUJ", "QU J", "QUJD=", "QQ==QUJD", "ab-_"] {
        assert!(!check_base64_text(text.as_bytes()), "{}", text);
    }
}

#[test]
fn segments_make_queries() {
    assert_eq!(
        parse_query(b"a+b=c%20d"),
        Some(Query { field: "a b".to_string(), value: "c d".to_string() })
    );
    assert_eq!(
        parse_query(b"=%41%4a%6B"),
        Some(Query { field: String::new(), value: "AJk".to_string() })
    );
    assert_eq!(
        parse_query(b"k=%%41%4"),
        Some(Query { field: "k".to_string(), value: "%A%4".to_string() })
    );
    assert_eq!(parse_query(b"novalue"), None);
    assert_eq!(parse_query(b""), None);
    assert_eq!(parse_query(b"a=%80"), None);
}
