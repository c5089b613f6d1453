use rex_player::numbers::{parse_boolean, parse_int, parse_uint, print_bool, print_int, print_uint};
use rex_player::text::{
    chars_of, collapse, prefix_cut, replace, split_on, trimmed, utf8_bytes, utf8_longer,
};

fn v(s: &str) -> Vec<char> {
    s.chars().collect()
}

#[test]
fn chars_and_strings_round_trip() {
    let c = chars_of("héllo");
    assert_eq!(c, v("héllo"));
}

#[test]
fn replace_every_occurrence_left_to_right() {
    assert_eq!(replace(&v("a::b::c"), &v("::"), &v(":")), v("a:b:c"));
    assert_eq!(replace(&v("aaa"), &v("aa"), &v("b")), v("ba"));
    assert_eq!(replace(&v("abc"), &v("x"), &v("y")), v("abc"));
}

#[test]
fn collapse_leaves_no_double_space() {
    let r = collapse(v("a    b  c "));
    assert_eq!(r, v("a b c "));
    let s: String = r.iter().collect();
    assert!(!s.contains("  "));
}

#[test]
fn trimmed_drops_outer_whitespace() {
    assert_eq!(trimmed(&v("  \t a b \n")), v("a b"));
    assert_eq!(trimmed(&v("   ")), v(""));
}

#[test]
fn split_keeps_empty_pieces() {
    assert_eq!(split_on(&v("a::b"), ':'), vec![v("a"), v(""), v("b")]);
    assert_eq!(split_on(&v(""), ':'), vec![v("")]);
}

#[test]
fn utf8_lengths_and_cuts() {
    assert_eq!(utf8_bytes(&v("aé€")), 6);
    assert!(utf8_longer(&v("aé€"), 5));
    assert!(!utf8_longer(&v("aé€"), 6));
    assert_eq!(prefix_cut(&v("aé€"), 3), Some(2));
    assert_eq!(prefix_cut(&v("aé€"), 2), None);
    assert_eq!(prefix_cut(&v("ab"), 5), None);
}

#[test]
fn parses_numbers_as_std_does() {
    assert_eq!(parse_uint(&v("ff0000"), 16, u32::MAX as u64), Some(0xff0000));
    assert_eq!(parse_uint(&v("+12"), 10, u64::MAX), Some(12));
    assert_eq!(parse_uint(&v("100000000"), 16, u32::MAX as u64), None);
    assert_eq!(parse_uint(&v(""), 10, u64::MAX), None);
    assert_eq!(parse_uint(&v("1x"), 10, u64::MAX), None);
    assert_eq!(parse_int(&v("-42")), Some(-42));
    assert_eq!(parse_int(&v("-9223372036854775808")), Some(i64::MIN));
    assert_eq!(parse_int(&v("9223372036854775808")), None);
    assert_eq!(parse_boolean(&v("true")), Some(true));
    assert_eq!(parse_boolean(&v("False")), None);
}

#[test]
fn prints_numbers_as_format_does() {
    assert_eq!(print_uint(0, 10), v("0"));
    assert_eq!(print_uint(255, 16), v("ff"));
    assert_eq!(print_uint(0xFF101010, 16), v("ff101010"));
    assert_eq!(print_int(-305), v("-305"));
    assert_eq!(print_int(i64::MIN), v("-9223372036854775808"));
    assert_eq!(print_bool(false), v("false"));
}
