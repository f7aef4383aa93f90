use dashboard_store::text::{
    blank, comes_before, decimal_width, push_decimal, push_zero_padded, white_space,
};

fn decimal(n: u64) -> String {
    let mut out = String::new();
    push_decimal(&mut out, n);
    out
}

fn padded(n: u64, width: usize) -> String {
    let mut out = String::new();
    push_zero_padded(&mut out, n, width);
    out
}

#[test]
fn decimal_writes_numbers_as_std_does() {
    for n in [0u64, 1, 9, 10, 11, 99, 100, 101, 1969, 1970, 9999, 10000, 123456789, u64::MAX] {
        assert_eq!(decimal(n), n.to_string());
        assert_eq!(decimal_width(n), n.to_string().len());
    }
}

#[test]
fn decimal_appends_to_what_is_there() {
    let mut out = String::from("n=");
    push_decimal(&mut out, 42);
    assert_eq!(out, "n=42");
}

#[test]
fn padding_fills_with_zeros() {
    assert_eq!(padded(0, 2), "00");
    assert_eq!(padded(7, 2), "07");
    assert_eq!(padded(42, 2), "42");
    assert_eq!(padded(7, 3), "007");
    assert_eq!(padded(70, 3), "070");
    assert_eq!(padded(1970, 4), "1970");
    assert_eq!(padded(5, 4), "0005");
}

#[test]
fn padding_never_cuts_a_number() {
    assert_eq!(padded(123, 2), "123");
    assert_eq!(padded(10000, 4), "10000");
    assert_eq!(padded(5, 0), "5");
    assert_eq!(padded(0, 0), "0");
}

#[test]
fn padding_agrees_with_std() {
    for n in [0u64, 3, 12, 123, 1234, 12345] {
        assert_eq!(padded(n, 2), format!("{:02}", n));
        assert_eq!(padded(n, 3), format!("{:03}", n));
        assert_eq!(padded(n, 4), format!("{:04}", n));
    }
}

#[test]
fn blank_texts() {
    assert!(blank(""));
    assert!(blank(" "));
    assert!(blank(" \t\r\n"));
    assert!(blank("\u{a0}\u{2003}\u{3000}"));
    assert!(!blank("a"));
    assert!(!blank("  a  "));
    assert!(!blank("\u{200b}"));
    assert!(!blank("_"));
}

#[test]
fn blank_agrees_with_trimming() {
    for text in ["", " ", "x", " x", "x ", "\n\n", "\u{85}", "\u{1680}\u{2028}\u{2029}", "\u{feff}"] {
        assert_eq!(blank(text), text.trim().is_empty(), "{:?}", text);
    }
}

#[test]
fn white_space_agrees_with_std_on_every_character() {
    for code in 0..=0x10FFFFu32 {
        if let Some(c) = char::from_u32(code) {
            assert_eq!(white_space(c), c.is_whitespace(), "U+{:04X}", code);
        }
    }
}

#[test]
fn order_of_strings() {
    assert!(comes_before("", "a"));
    assert!(!comes_before("", ""));
    assert!(!comes_before("a", ""));
    assert!(comes_before("a", "b"));
    assert!(!comes_before("b", "a"));
    assert!(comes_before("a", "ab"));
    assert!(!comes_before("ab", "a"));
    assert!(comes_before("ab", "b"));
    assert!(!comes_before("abc", "abc"));
    assert!(comes_before("2023-11-14T22:13:20.123Z", "2023-11-14T22:13:20.124Z"));
    assert!(comes_before("9999", "99990"));
}

#[test]
fn order_of_strings_agrees_with_std() {
    let texts = ["", "a", "A", "ab", "b", "z", "é", "zz", "\u{10000}", "\u{ffff}", "10", "9"];
    for a in texts {
        for b in texts {
            assert_eq!(comes_before(a, b), a < b, "{:?} and {:?}", a, b);
        }
    }
}
