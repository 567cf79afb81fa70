use crayne_lang::parser::tokens::{Span, Token};

#[test]
fn input_take() {
    let span = Span::new("abcde");
    let expected = Span::new("abc");

    assert_eq!(expected, span.take(3));
}

#[test]
fn input_take_split() {
    let span = Span::new("abcde");
    let expected = (Span::new_at("de", 3, 1, 4), Span::new("abc"));

    assert_eq!(expected, span.take_split(3));
}

#[test]
fn new_span_begins_the_input() {
    let meta = Span::new("abc");

    assert_eq!(0, meta.offset);
    assert_eq!(1, meta.line);
    assert_eq!(1, meta.column);
    assert_eq!("abc", meta.as_slice());
}

#[test]
fn new_at_keeps_what_it_is_given() {
    let meta = Span::new_at("abc", 1, 2, 3);

    assert_eq!(1, meta.offset);
    assert_eq!(2, meta.line);
    assert_eq!(3, meta.column);
    assert_eq!("abc", meta.as_slice());
}

#[test]
fn blank_is_the_empty_span() {
    assert_eq!(Span::new(""), Span::blank());
}

#[test]
fn token_keeps_value_and_meta() {
    let token = Token::new(1, Span::new("1"));

    assert_eq!(1, *token.value());
    assert_eq!(Span::new("1"), token.meta());
}

#[test]
fn take_split_counts_lines() {
    let span = Span::new_at("ab\ncd\nefg", 10, 5, 7);
    let (rest, taken) = span.take_split(7);

    assert_eq!(Span::new_at("ab\ncd\ne", 10, 5, 7), taken);
    assert_eq!(Span::new_at("fg", 17, 7, 2), rest);
}

#[test]
fn take_split_right_behind_a_newline() {
    let span = Span::new("ab\ncd");
    let (rest, taken) = span.take_split(3);

    assert_eq!(Span::new("ab\n"), taken);
    assert_eq!(Span::new_at("cd", 3, 2, 1), rest);
}

#[test]
fn take_split_without_newline_moves_along_the_line() {
    let span = Span::new_at("abcdef", 4, 2, 9);
    let (rest, taken) = span.take_split(2);

    assert_eq!(Span::new_at("ab", 4, 2, 9), taken);
    assert_eq!(Span::new_at("cdef", 6, 2, 11), rest);
}

#[test]
fn take_split_at_both_ends() {
    let span = Span::new("a\nb");

    assert_eq!((Span::new_at("a\nb", 0, 1, 1), Span::new("")), span.take_split(0));
    assert_eq!((Span::new_at("", 3, 2, 2), Span::new("a\nb")), span.take_split(3));
}

#[test]
fn take_split_counts_bytes_not_characters() {
    let span = Span::new("\u{e9}\u{e9}x");
    let (rest, taken) = span.take_split(4);

    assert_eq!("\u{e9}\u{e9}", taken.as_slice());
    assert_eq!(Span::new_at("x", 4, 1, 5), rest);
}

#[test]
fn take_split_many_newlines() {
    let text = "\n".repeat(40) + "xy";
    let span = Span::new(&text);
    let (rest, taken) = span.take_split(41);

    assert_eq!(41, taken.as_slice().len());
    assert_eq!(Span::new_at("y", 41, 41, 2), rest);
}

#[test]
fn take_keeps_the_place() {
    let span = Span::new_at("hello", 8, 3, 2);

    assert_eq!(Span::new_at("he", 8, 3, 2), span.take(2));
    assert_eq!(Span::new_at("", 8, 3, 2), span.take(0));
    assert_eq!(span, span.take(5));
}
