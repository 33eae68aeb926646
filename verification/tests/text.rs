use icecutter::text::{
    chars_of, parse_unsigned_chars, push_chars, same_text, split_chars, string_of, trim_chars,
    IntErrorKind,
};

fn c(s: &str) -> Vec<char> {
    s.chars().collect()
}

#[test]
fn strings_from_characters() {
    assert_eq!(string_of(&c("héllo")), "héllo");
    let mut s = String::from("ab");
    push_chars(&mut s, &c("cd"));
    assert_eq!(s, "abcd");
    assert_eq!(chars_of("x:y"), vec!['x', ':', 'y']);
}

#[test]
fn trimming() {
    assert_eq!(trim_chars(&c("  a b \n")), c("a b"));
    assert_eq!(trim_chars(&c("\u{a0}x\u{2003}")), c("x"));
    assert_eq!(trim_chars(&c("   ")), c(""));
}

#[test]
fn splitting() {
    assert_eq!(split_chars(&c("a:b::c"), &c(":")), vec![c("a"), c("b"), c(""), c("c")]);
    assert_eq!(split_chars(&c(""), &c(":")), vec![c("")]);
    assert_eq!(split_chars(&c("0:01:2.5"), &c(":.")), vec![c("0"), c("01"), c("2"), c("5")]);
}

#[test]
fn unsigned_integers() {
    assert_eq!(parse_unsigned_chars(&c("+12"), 255), Ok(12));
    assert_eq!(parse_unsigned_chars(&c("255"), 255), Ok(255));
    assert_eq!(parse_unsigned_chars(&c(""), 255), Err(IntErrorKind::Empty));
    assert_eq!(parse_unsigned_chars(&c("+"), 255), Err(IntErrorKind::InvalidDigit));
    assert_eq!(parse_unsigned_chars(&c("-1"), 255), Err(IntErrorKind::InvalidDigit));
    assert_eq!(parse_unsigned_chars(&c("256"), 255), Err(IntErrorKind::PosOverflow));
    assert_eq!(parse_unsigned_chars(&c("2a"), 255), Err(IntErrorKind::InvalidDigit));
    assert_eq!(parse_unsigned_chars(&c("999a"), 255), Err(IntErrorKind::PosOverflow));
    assert_eq!(parse_unsigned_chars(&c("4294967295"), 0xffff_ffff), Ok(4294967295));
    assert_eq!(parse_unsigned_chars(&c("4294967296"), 0xffff_ffff), Err(IntErrorKind::PosOverflow));
    assert_eq!(IntErrorKind::Empty.message(), "cannot parse integer from empty string");
}

#[test]
fn same_text_compares() {
    assert!(same_text("N/A", "N/A"));
    assert!(!same_text("N/A", "N/B"));
}
