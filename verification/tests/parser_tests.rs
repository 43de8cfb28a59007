use bugle::parser::{parse_hex, parse_map, parse_quoted, ErrorKind};
use bugle::text::{chars_le, hex_string, parse_u64};

fn chars(s: &str) -> Vec<char> {
    s.chars().collect()
}

#[test]
fn maps_keep_the_first_value_of_each_key() {
    let m = parse_map("(A=\"x\", B = 1 ,A=2)").unwrap();
    assert_eq!(m, vec![("A".to_string(), "\"x\"".to_string()), ("B".to_string(), "1".to_string())]);
    let nested = parse_map("(Key=\"a,b)\")").unwrap();
    assert_eq!(nested, vec![("Key".to_string(), "\"a,b)\"".to_string())]);
}

#[test]
fn map_errors_say_what_and_where() {
    let e = parse_map("A=1").unwrap_err();
    assert_eq!(e.kind, ErrorKind::Char);
    assert_eq!(e.offset, 0);
    let e = parse_map("(A)").unwrap_err();
    assert_eq!(e.kind, ErrorKind::Char);
    assert_eq!(e.offset, 3);
    let e = parse_map("(A=1) ").unwrap_err();
    assert_eq!(e.kind, ErrorKind::Eof);
    assert_eq!(e.offset, 5);
    assert_eq!(ErrorKind::Eof.name(), "Eof");
}

#[test]
fn quoted_strings_unescape() {
    assert_eq!(parse_quoted("\"a\\\"b\\\\c\"").unwrap(), "a\"b\\c");
    assert_eq!(parse_quoted("\"\"").unwrap_err().kind, ErrorKind::EscapedTransform);
    assert_eq!(parse_quoted("abc").unwrap_err().kind, ErrorKind::Char);
}

#[test]
fn hex_takes_exactly_len_digits() {
    assert_eq!(parse_hex("0aF9", 4).unwrap(), "0aF9");
    assert_eq!(parse_hex("0aF", 4).unwrap_err().kind, ErrorKind::TakeWhileMN);
    assert_eq!(parse_hex("0aF91", 4).unwrap_err().kind, ErrorKind::Eof);
    assert_eq!(hex_string(&[0xde, 0xad], false), "dead");
}

#[test]
fn numbers_parse_as_u64_does() {
    assert_eq!(parse_u64(&chars("880454836")), Some(880454836));
    assert_eq!(parse_u64(&chars("+7")), Some(7));
    assert_eq!(parse_u64(&chars("18446744073709551615")), Some(u64::MAX));
    assert_eq!(parse_u64(&chars("18446744073709551616")), None);
    assert_eq!(parse_u64(&chars("")), None);
    assert_eq!(parse_u64(&chars("-1")), None);
    assert_eq!(parse_u64(&chars("12a")), None);
}

#[test]
fn texts_compare_by_code_point() {
    assert!(chars_le(&chars("abc"), &chars("abd")));
    assert!(chars_le(&chars("ab"), &chars("abc")));
    assert!(!chars_le(&chars("b"), &chars("abc")));
    assert!(chars_le(&chars("Z"), &chars("a")));
    assert!(chars_le(&chars(""), &chars("")));
}
