use crayne_lang::parser::rules::{
    checked_identifier, identifier, measure, split_identifier, ws, CharClass, ErrorKind,
    ParseError,
};
use crayne_lang::parser::tokens::Span;

#[test]
fn identifier_takes_the_whole_word() {
    let input = Span::new("count: Int");

    assert_eq!(Ok((Span::new_at(": Int", 5, 1, 6), Span::new("count"))), identifier(input));
}

#[test]
fn identifier_may_begin_with_an_underscore() {
    let input = Span::new("_a1 b");

    assert_eq!(Ok((Span::new_at(" b", 3, 1, 4), Span::new("_a1"))), identifier(input));
}

#[test]
fn identifier_takes_the_input_to_its_end() {
    let input = Span::new_at("abc", 7, 2, 3);

    assert_eq!(
        Ok((Span::new_at("", 10, 2, 6), Span::new_at("abc", 7, 2, 3))),
        identifier(input)
    );
}

#[test]
fn identifier_does_not_begin_with_a_number() {
    let input = Span::new("1abc");

    assert_eq!(Err(ParseError { input, kind: ErrorKind::Verify }), identifier(input));
}

#[test]
fn identifier_needs_a_word_character() {
    let input = Span::new("+abc");
    let empty = Span::new("");

    assert_eq!(Err(ParseError { input, kind: ErrorKind::TakeWhile1 }), identifier(input));
    assert_eq!(Err(ParseError { input: empty, kind: ErrorKind::TakeWhile1 }), identifier(empty));
}

#[test]
fn identifier_counts_bytes_of_letters_beyond_ascii() {
    let input = Span::new("\u{e9}t\u{e9} 1");

    assert_eq!(
        Ok((Span::new_at(" 1", 5, 1, 6), Span::new("\u{e9}t\u{e9}"))),
        identifier(input)
    );
}

#[test]
fn checked_identifier_agrees_with_identifier() {
    for text in ["abc def", "1abc", "", "_", "a\nb", "x1_y2(z)"] {
        let input = Span::new(text);
        assert_eq!(Some(identifier(input)), checked_identifier(input));
    }
}

#[test]
fn checked_identifier_refuses_a_span_that_cannot_move_on() {
    let at_the_edge = Span::new_at("abc", usize::MAX - 1, 1, 1);
    let in_the_last_column = Span::new_at("abc", 0, 1, u32::MAX - 1);
    let no_word = Span::new_at("+", usize::MAX, u32::MAX, u32::MAX);

    assert_eq!(None, checked_identifier(at_the_edge));
    assert_eq!(None, checked_identifier(in_the_last_column));
    assert_eq!(
        Some(Err(ParseError { input: no_word, kind: ErrorKind::TakeWhile1 })),
        checked_identifier(no_word)
    );
}

#[test]
fn split_identifier_goes_by_what_it_is_told() {
    let input = Span::new("abc def");

    assert_eq!(
        Ok((Span::new_at(" def", 3, 1, 4), Span::new("abc"))),
        split_identifier(input, 3, true)
    );
    assert_eq!(
        Err(ParseError { input, kind: ErrorKind::Verify }),
        split_identifier(input, 3, false)
    );
    assert_eq!(
        Err(ParseError { input, kind: ErrorKind::TakeWhile1 }),
        split_identifier(input, 0, true)
    );
    assert_eq!(
        Err(ParseError { input, kind: ErrorKind::TakeWhile1 }),
        split_identifier(input, 0, false)
    );
}

#[test]
fn measure_counts_leading_bytes_of_a_class() {
    assert_eq!(3, measure("abc def", CharClass::Word));
    assert_eq!(0, measure(" abc", CharClass::Word));
    assert_eq!(0, measure("", CharClass::Word));
    assert_eq!(4, measure("a_1\u{df}", CharClass::Word).min(4));
    assert_eq!(5, measure("a_1\u{df}", CharClass::Word));
    assert_eq!(4, measure(" \t\r\nx ", CharClass::Space));
    assert_eq!(0, measure("x ", CharClass::Space));
    assert_eq!(0, measure("\u{a0}x", CharClass::Space));
}

#[test]
fn char_classes() {
    for c in ['a', 'Z', '0', '9', '_', '\u{e9}', '\u{3b1}', '\u{663}'] {
        assert!(CharClass::Word.accepts(c));
    }
    for c in [' ', '-', '\n', '(', '\u{a0}'] {
        assert!(!CharClass::Word.accepts(c));
    }
    for c in [' ', '\t', '\r', '\n'] {
        assert!(CharClass::Space.accepts(c));
    }
    for c in ['a', '_', '\u{a0}', '\u{b}', '\u{c}'] {
        assert!(!CharClass::Space.accepts(c));
    }
}

#[test]
fn ws_skips_blank_space_before_the_parser() {
    let input = Span::new("  \t abc def");

    assert_eq!(
        Ok((Span::new_at(" def", 7, 1, 8), Span::new_at("abc", 4, 1, 5))),
        ws(identifier, input)
    );
}

#[test]
fn ws_follows_the_lines_it_skips() {
    let input = Span::new(" \n\r\n  name");

    assert_eq!(
        Ok((Span::new_at("", 10, 3, 7), Span::new_at("name", 6, 3, 3))),
        ws(identifier, input)
    );
}

#[test]
fn ws_without_blank_space_hands_the_input_on() {
    let input = Span::new("abc");

    assert_eq!(identifier(input), ws(identifier, input));
}

#[test]
fn ws_hands_back_the_error_of_the_parser() {
    let input = Span::new("  1abc");
    let behind = Span::new_at("1abc", 2, 1, 3);

    assert_eq!(Err(ParseError { input: behind, kind: ErrorKind::Verify }), ws(identifier, input));
}
