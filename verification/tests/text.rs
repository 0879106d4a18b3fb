use link_parsing::text::is_blank;
use link_parsing::text::len;
use link_parsing::text::parse_u32;
use link_parsing::text::slice;
use link_parsing::text::starts_with;

#[test]
fn len_counts_bytes() {
    assert_eq!(len(""), 0);
    assert_eq!(len("foo"), 3);
    assert_eq!(len("f\u{a0}o"), 4);
    assert_eq!(len("\u{1f600}"), 4);
}

#[test]
fn slice_takes_valid_ranges() {
    assert_eq!(slice("foo:12", 0, 3), Some("foo"));
    assert_eq!(slice("foo:12", 3, 6), Some(":12"));
    assert_eq!(slice("foo:12", 2, 2), Some(""));
    assert_eq!(slice("foo", 0, 0), Some(""));
    assert_eq!(slice("foo", 3, 3), Some(""));
    assert_eq!(slice("", 0, 0), Some(""));
    assert_eq!(slice("a\u{e9}b", 1, 3), Some("\u{e9}"));
    assert_eq!(slice("a\u{e9}b", 0, 4), Some("a\u{e9}b"));
}

#[test]
fn slice_refuses_other_ranges() {
    assert_eq!(slice("foo", 2, 1), None);
    assert_eq!(slice("foo", 0, 4), None);
    assert_eq!(slice("foo", 4, 4), None);
    assert_eq!(slice("foo", usize::MAX, usize::MAX), None);
    assert_eq!(slice("a\u{e9}b", 0, 2), None);
    assert_eq!(slice("a\u{e9}b", 2, 4), None);
    assert_eq!(slice("a\u{e9}b", 2, 2), None);
}

#[test]
fn starts_with_compares_bytes() {
    assert!(starts_with("--- a/foo", "--- a/"));
    assert!(starts_with("--- a/", "--- a/"));
    assert!(!starts_with("--- a", "--- a/"));
    assert!(!starts_with("+++ a/foo", "--- a/"));
    assert!(starts_with("anything", ""));
    assert!(starts_with("", ""));
    assert!(!starts_with("", "a"));
    assert!(starts_with("\u{e9}t\u{e9}", "\u{e9}"));
    assert!(!starts_with("e\u{301}", "\u{e9}"));
}

#[test]
fn blank_texts() {
    assert!(is_blank(""));
    assert!(is_blank(" "));
    assert!(is_blank(" \t\n\r"));
    assert!(is_blank("\u{a0}\u{2003}\u{3000}"));
    assert!(!is_blank("a"));
    assert!(!is_blank("  a  "));
    assert!(!is_blank("\u{200b}"));
    assert!(!is_blank(" \""));
}

#[test]
fn parse_u32_reads_decimal_numbers() {
    assert_eq!(parse_u32("0"), Some(0));
    assert_eq!(parse_u32("7"), Some(7));
    assert_eq!(parse_u32("339"), Some(339));
    assert_eq!(parse_u32("007"), Some(7));
    assert_eq!(parse_u32("+5"), Some(5));
    assert_eq!(parse_u32("4294967295"), Some(u32::MAX));
    assert_eq!(parse_u32("0000000004294967295"), Some(u32::MAX));
}

#[test]
fn parse_u32_refuses_what_is_no_number() {
    assert_eq!(parse_u32(""), None);
    assert_eq!(parse_u32("+"), None);
    assert_eq!(parse_u32("-5"), None);
    assert_eq!(parse_u32("++5"), None);
    assert_eq!(parse_u32("5+"), None);
    assert_eq!(parse_u32(" 5"), None);
    assert_eq!(parse_u32("5 "), None);
    assert_eq!(parse_u32("12a"), None);
    assert_eq!(parse_u32("1_000"), None);
    assert_eq!(parse_u32("\u{663}"), None);
    assert_eq!(parse_u32("4294967296"), None);
    assert_eq!(parse_u32("42949672950"), None);
    assert_eq!(parse_u32("99999999999999999999999999"), None);
}

#[test]
fn parse_u32_agrees_with_std() {
    let texts = [
        "", "+", "-", "0", "+0", "-0", "1", "10", "0010", "4294967294", "4294967295",
        "4294967296", "4294967300", "18446744073709551616", "1a", "a1", "٣", "１２", "+12", "12+",
    ];
    for text in texts {
        assert_eq!(parse_u32(text), text.parse::<u32>().ok(), "{:?}", text);
    }
}
