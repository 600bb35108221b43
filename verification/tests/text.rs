use rustis::decimal::{parse_u64, push_decimal, u64_to_text};
use rustis::text::{join_from, lines_of};

fn strings(lines: &[&str]) -> Vec<String> {
    lines.iter().map(|s| s.to_string()).collect()
}

#[test]
fn lines_of_splits_at_every_newline() {
    assert_eq!(lines_of(""), strings(&[""]));
    assert_eq!(lines_of("a"), strings(&["a"]));
    assert_eq!(lines_of("a\nb"), strings(&["a", "b"]));
    assert_eq!(lines_of("a\n"), strings(&["a", ""]));
    assert_eq!(lines_of("\n"), strings(&["", ""]));
    assert_eq!(lines_of("\n\na\n\n"), strings(&["", "", "a", "", ""]));
    assert_eq!(lines_of("é\r\nü"), strings(&["é\r", "ü"]));
}

#[test]
fn lines_of_agrees_with_split_of_std() {
    for text in ["", "x", "\n", "a\nb\nc", "\na\n\nb\n", "one line", "tab\there\n"] {
        let expected: Vec<String> = text.split("\n").map(|s| s.to_string()).collect();
        assert_eq!(lines_of(text), expected, "{:?}", text);
    }
}

#[test]
fn join_from_puts_newlines_between() {
    let lines = strings(&["h", "c", "a", "", "b"]);
    assert_eq!(join_from(&lines, 0), "h\nc\na\n\nb");
    assert_eq!(join_from(&lines, 2), "a\n\nb");
    assert_eq!(join_from(&lines, 3), "\nb");
    assert_eq!(join_from(&lines, 4), "b");
    assert_eq!(join_from(&lines, 5), "");
    assert_eq!(join_from(&strings(&[]), 0), "");
    assert_eq!(join_from(&strings(&[""]), 0), "");
    assert_eq!(join_from(&strings(&["", ""]), 0), "\n");
}

#[test]
fn joining_the_lines_gives_the_text_back() {
    for text in ["", "x", "\n", "a\nb\nc", "\na\n\nb\n", "\n\n\n"] {
        assert_eq!(join_from(&lines_of(text), 0), text);
    }
}

#[test]
fn parse_u64_reads_decimal_numbers() {
    assert_eq!(parse_u64("0"), Some(0));
    assert_eq!(parse_u64("7"), Some(7));
    assert_eq!(parse_u64("10"), Some(10));
    assert_eq!(parse_u64("007"), Some(7));
    assert_eq!(parse_u64("+42"), Some(42));
    assert_eq!(parse_u64("18446744073709551615"), Some(u64::MAX));
    assert_eq!(parse_u64("00018446744073709551615"), Some(u64::MAX));
}

#[test]
fn parse_u64_refuses_what_is_no_number() {
    for text in [
        "", "+", "-", "-1", "-0", "++1", "+-1", "1+", " 1", "1 ", "1_000", "1.0", "1e3", "0x10",
        "one", "١٢", "１", "18446744073709551616", "99999999999999999999", "184467440737095516150",
    ] {
        assert_eq!(parse_u64(text), None, "{:?}", text);
    }
}

#[test]
fn parse_u64_agrees_with_std() {
    for text in ["", "+", "0", "+0", "-0", "12", "012", "1 2", "18446744073709551615",
        "18446744073709551616", "+18446744073709551615", "4294967296", "a", "9a", "٣"] {
        assert_eq!(parse_u64(text), text.parse::<u64>().ok(), "{:?}", text);
    }
}

#[test]
fn u64_to_text_writes_decimal_numbers() {
    assert_eq!(u64_to_text(0), "0");
    assert_eq!(u64_to_text(9), "9");
    assert_eq!(u64_to_text(10), "10");
    assert_eq!(u64_to_text(1234567890), "1234567890");
    assert_eq!(u64_to_text(u64::MAX), "18446744073709551615");
    let mut out = String::from("ttl=");
    push_decimal(&mut out, 305);
    assert_eq!(out, "ttl=305");
}

#[test]
fn reading_what_was_written_gives_the_number_back() {
    for n in [0, 1, 9, 10, 99, 100, 4294967295, 4294967296, u64::MAX - 1, u64::MAX] {
        assert_eq!(parse_u64(&u64_to_text(n)), Some(n));
        assert_eq!(u64_to_text(n), n.to_string());
    }
}
