use sidekick::text::{
    cat, cat3, comes_before, decimal, holds, join, parse_u16, same, split, strip, text_or_default,
    trim, trim_start, white_space,
};

#[test]
fn white_space_is_what_std_calls_white_space() {
    for c in '\0'..=char::MAX {
        assert_eq!(white_space(c), c.is_whitespace(), "{:?}", c);
    }
}

#[test]
fn trimming_cuts_both_ends() {
    assert_eq!(trim("  a b\t\n"), "a b");
    assert_eq!(trim("\u{3000}x\u{a0}"), "x");
    assert_eq!(trim(" \t "), "");
    assert_eq!(trim(""), "");
    assert_eq!(trim_start("  a "), "a ");
}

#[test]
fn splitting_gives_one_piece_more_than_separators() {
    assert_eq!(split("a,b,,c", ','), vec!["a", "b", "", "c"]);
    assert_eq!(split("", ','), vec![""]);
    assert_eq!(split(",", ','), vec!["", ""]);
}

#[test]
fn stripping_repeats() {
    assert_eq!(strip("step-build", "step-"), "build");
    assert_eq!(strip("step-step-build", "step-"), "build");
    assert_eq!(strip("build-step-", "step-"), "build-step-");
    assert_eq!(strip("step-", "step-"), "");
    assert_eq!(strip("abc", ""), "abc");
}

#[test]
fn joining_puts_the_separator_between() {
    let parts = vec!["a".to_string(), "".to_string(), "c".to_string()];
    assert_eq!(join(&parts, ", "), "a, , c");
    assert_eq!(join(&Vec::new(), ","), "");
    assert_eq!(cat("a", "b"), "ab");
    assert_eq!(cat3("a", "b", "c"), "abc");
}

#[test]
fn decimal_writes_as_std_does() {
    for n in [0u128, 9, 10, 99, 100, 5432, 1_700_000_000_000_000_000, u128::MAX] {
        assert_eq!(decimal(n), n.to_string());
    }
}

#[test]
fn port_numbers_are_read_as_std_reads_them() {
    let texts = [
        "5432", "0", "65535", "65536", "", "+", "+80", "-1", "-0", "8a", " 80", "00080", "٣",
        "99999999999999999999",
    ];
    for t in texts {
        assert_eq!(parse_u16(t), t.parse::<u16>().ok(), "{:?}", t);
    }
}

#[test]
fn texts_are_ordered_by_their_bytes() {
    let words = ["", "0", "10", "9", "a", "ab", "b", "é", "z", "\u{ffff}", "\u{10000}"];
    for a in words {
        for b in words {
            assert_eq!(comes_before(a, b), a < b, "{:?} {:?}", a, b);
            assert_eq!(same(a, b), a == b, "{:?} {:?}", a, b);
        }
    }
}

#[test]
fn lists_and_defaults() {
    let list = vec!["a".to_string(), "b".to_string()];
    assert!(holds(&list, "b"));
    assert!(!holds(&list, "c"));
    assert_eq!(text_or_default(Some("x".to_string()), "y"), "x");
    assert_eq!(text_or_default(None, "y"), "y");
}
