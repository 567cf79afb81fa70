use crayne_lang::tools::text::{
    push_decimal, push_decimal_padded, push_repeat, push_text_padded,
};

fn decimal(n: u64) -> String {
    let mut out = String::new();
    push_decimal(&mut out, n);
    out
}

fn decimal_padded(n: u64, width: usize, fill: &str) -> String {
    let mut out = String::new();
    push_decimal_padded(&mut out, n, width, fill);
    out
}

fn text_padded(text: &str, width: usize) -> String {
    let mut out = String::new();
    push_text_padded(&mut out, text, width, " ");
    out
}

#[test]
fn decimal_numerals() {
    assert_eq!("0", decimal(0));
    assert_eq!("7", decimal(7));
    assert_eq!("10", decimal(10));
    assert_eq!("255", decimal(255));
    assert_eq!("4294967295", decimal(u32::MAX as u64));
    assert_eq!("18446744073709551615", decimal(u64::MAX));
}

#[test]
fn decimal_numerals_agree_with_the_standard_library() {
    for n in (0..20000u64).chain([99_999, 100_000, 1 << 40, u64::MAX - 1]) {
        assert_eq!(n.to_string(), decimal(n));
    }
}

#[test]
fn decimal_is_appended_to_what_is_there() {
    let mut out = String::from("n = ");
    push_decimal(&mut out, 42);

    assert_eq!("n = 42", out);
}

#[test]
fn numbers_are_padded_on_the_left() {
    assert_eq!("0000", decimal_padded(0, 4, "0"));
    assert_eq!("0042", decimal_padded(42, 4, "0"));
    assert_eq!("9999", decimal_padded(9999, 4, "0"));
    assert_eq!("10000", decimal_padded(10000, 4, "0"));
    assert_eq!("   7", decimal_padded(7, 4, " "));
    assert_eq!(" 255", decimal_padded(255, 4, " "));
    assert_eq!("7", decimal_padded(7, 0, " "));
    assert_eq!("7", decimal_padded(7, 1, " "));
}

#[test]
fn padded_numbers_agree_with_the_standard_library() {
    for n in [0u64, 1, 9, 10, 99, 100, 999, 1000, 9999, 10000, 123456, u64::MAX] {
        assert_eq!(format!("{:04}", n), decimal_padded(n, 4, "0"));
        assert_eq!(format!("{:4}", n), decimal_padded(n, 4, " "));
        assert_eq!(format!("{:25}", n), decimal_padded(n, 25, " "));
    }
}

#[test]
fn text_is_padded_on_the_right() {
    assert_eq!("OP_CONSTANT     ", text_padded("OP_CONSTANT", 16));
    assert_eq!("                ", text_padded("", 16));
    assert_eq!("exactly sixteen!", text_padded("exactly sixteen!", 16));
    assert_eq!("longer than sixteen", text_padded("longer than sixteen", 16));
    assert_eq!("ab", text_padded("ab", 0));
}

#[test]
fn padding_counts_characters_not_bytes() {
    assert_eq!("\u{e9}\u{e9}  ", text_padded("\u{e9}\u{e9}", 4));
    assert_eq!(format!("{:-16}", "\u{3b1}\u{3b2}"), text_padded("\u{3b1}\u{3b2}", 16));
}

#[test]
fn repeat_appends_so_many_copies() {
    let mut out = String::from("a");
    push_repeat(&mut out, "-", 3);
    push_repeat(&mut out, "+", 0);

    assert_eq!("a---", out);
}
