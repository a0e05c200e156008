use logs_gateway::text::{
    chars, join_strings, last_piece, parse_number, push_decimal, split_fields, starts_with, without_leading,
    without_trailing,
};

fn decimal(n: u64) -> String {
    let mut out = String::new();
    push_decimal(&mut out, n);
    out
}

#[test]
fn numbers_are_read() {
    assert_eq!(parse_number("0"), Some(0));
    assert_eq!(parse_number("+007"), Some(7));
    assert_eq!(parse_number("18446744073709551615"), Some(u64::MAX));
    assert_eq!(parse_number("18446744073709551616"), None);
    assert_eq!(parse_number("99999999999999999999"), None);
}

#[test]
fn numbers_are_read_as_the_standard_library_reads_them() {
    for text in vec![
        "", "+", "-", "++1", "-1", "1 ", " 1", "1_000", "0x10", "1.0", "+0", "00", "\u{664}", "1+",
        "18446744073709551614", "18446744073709551625", "118446744073709551615",
    ] {
        assert_eq!(parse_number(text), text.parse::<u64>().ok());
    }
}

#[test]
fn numbers_are_printed_and_read_back() {
    for n in vec![0, 9, 10, 99, 100, 65536, u64::MAX] {
        assert_eq!(decimal(n), n.to_string());
        assert_eq!(parse_number(&decimal(n)), Some(n));
    }
}

#[test]
fn lists_are_split_trimmed_and_cleared_of_blanks() {
    assert_eq!(split_fields(" a ,,b c,\t, d", ','), vec!["a", "b c", "d"]);
    assert!(split_fields("", ',').is_empty());
    assert!(split_fields(" , ", ',').is_empty());
}

#[test]
fn parts_are_joined() {
    let parts = vec!["a".to_string(), "".to_string(), "b".to_string()];
    assert_eq!(join_strings(&parts, "--"), "a----b");
    assert_eq!(join_strings(&Vec::new(), "--"), "");
}

#[test]
fn characters_are_stripped_at_one_end() {
    assert_eq!(without_leading("//a/", '/'), "a/");
    assert_eq!(without_trailing("/a//", '/'), "/a");
    assert_eq!(without_leading("//", '/'), "");
    assert_eq!(without_trailing("", '/'), "");
    assert_eq!(chars("a\u{e9}"), vec!['a', '\u{e9}']);
    assert!(starts_with("\u{e9}a", '\u{e9}'));
    assert!(!starts_with("", 'a'));
    assert_eq!(last_piece("a\nb\n\u{e9}c", '\n'), "\u{e9}c");
    assert_eq!(last_piece("a\n", '\n'), "");
    assert_eq!(last_piece("a", '\n'), "a");
}
