//! The lexemes of the language, and the metadata of a piece of source
//! text: where it stands in the input, on which line and in which column,
//! and the text itself.

use crate::parser::bytes::{
    bytes_behind_last,
    lemma_absent_iff_no_occurrences,
    lemma_bytes_behind_last,
    lemma_occurrences_bound,
    occurrences,
    NEWLINE,
};
use crate::parser::internals::Input;
use vstd::pervasive::unreached;
use vstd::prelude::*;
use vstd::string::*;
use vstd::utf8::*;

verus! {

/// The COLON token: the break between an identifier and its type, as in
/// `count: Int`.
pub const COLON: &'static str = ":";

/// The COMMA token: a separator in a sequence, as in `(1, 2, 3)`.
pub const COMMA: &'static str = ",";

/// The FN token: the declaration of a function, as in `fn foo() {}`.
pub const FN: &'static str = "fn";

/// The IMPURE token: an impure function, as in `impure fn foo() {}`.
pub const IMPURE: &'static str = "impure";

/// The LEFT_BRACE token: the beginning of a code block, map or struct.
pub const LEFT_BRACE: &'static str = "{";

/// The LEFT_PAREN token: the beginning of a grouping or tuple.
pub const LEFT_PAREN: &'static str = "(";

/// The RETURN_ARROW token: the return type of a function, as in
/// `fn a() -> Int {}`.
pub const RETURN_ARROW: &'static str = "->";

/// The RIGHT_BRACE token: the closing of a code block, map or struct.
pub const RIGHT_BRACE: &'static str = "}";

/// The RIGHT_PAREN token: the closing of a grouping or tuple.
pub const RIGHT_PAREN: &'static str = ")";

/// A structure pairing data with metadata.
pub struct Token<'a, T> {
    /// The value of the token.
    value: T,
    /// The metadata associated with the token.
    meta: Span<'a>,
}

impl<'a, T> Token<'a, T> {
    /// The value of the token.
    pub closed spec fn spec_value(&self) -> &T {
        &self.value
    }

    /// The metadata associated with the token.
    pub closed spec fn spec_meta(&self) -> Span<'a> {
        self.meta
    }

    /// Associates a piece of data with metadata.
    pub fn new(value: T, meta: Span<'a>) -> (token: Self)
        ensures
            *token.value() == value,
            token.meta() == meta,
    {
        Token { value, meta }
    }

    /// The value of the token.
    #[verifier::when_used_as_spec(spec_value)]
    pub fn value(&self) -> (value: &T)
        ensures
            value == self.spec_value(),
    {
        &self.value
    }

    /// The metadata associated with the token.
    #[verifier::when_used_as_spec(spec_meta)]
    pub fn meta(&self) -> (meta: Span<'a>)
        ensures
            meta == self.spec_meta(),
    {
        self.meta
    }
}

/// Metadata containing details about a token: offset, location and
/// lexeme.
#[derive(Debug, PartialEq, Copy, Clone)]
pub struct Span<'a> {
    /// The position of the lexeme relative to the beginning of the input
    /// of the parser, in bytes. Offsets begin at 0.
    pub offset: usize,
    /// The line of the lexeme relative to the beginning of the input of
    /// the parser. Lines are numbered from 1.
    pub line: u32,
    /// The column of the lexeme relative to the beginning of its line, in
    /// bytes. Columns are numbered from 1.
    pub column: u32,
    /// The slice that the metadata describes.
    pub slice: Input<'a>,
}

/// The column behind `taken`, a piece of text that began in `column`:
/// further along the same line where the piece holds no end of line, and
/// as far into a new line as the piece goes on behind its last end of
/// line where it holds one.
pub open spec fn column_behind(column: nat, taken: Seq<u8>) -> nat {
    if occurrences(taken, NEWLINE) == 0 {
        column + taken.len()
    } else {
        bytes_behind_last(taken, NEWLINE) + 1
    }
}

impl<'a> Span<'a> {
    /// The slice that the metadata describes.
    pub open spec fn spec_as_slice(&self) -> Input<'a> {
        self.slice
    }

    /// The bytes of the slice that the metadata describes.
    pub open spec fn bytes(&self) -> Seq<u8> {
        self.as_slice().spec_bytes()
    }

    /// Whether the slice can be cut `count` bytes from its beginning: the
    /// cut must not go beyond the end, nor through a character.
    pub open spec fn can_cut(&self, count: int) -> bool {
        is_char_boundary(self.bytes(), count)
    }

    /// Whether the span behind a cut at `count` can be described: its
    /// offset must fit a `usize`, its line and its column a `u32`.
    pub open spec fn can_split(&self, count: int) -> bool {
        &&& self.can_cut(count)
        &&& self.offset + count <= usize::MAX
        &&& self.line + occurrences(self.bytes().subrange(0, count), NEWLINE) <= u32::MAX
        &&& column_behind(self.column as nat, self.bytes().subrange(0, count)) <= u32::MAX
    }

    /// A cut that goes through no character lies within the slice.
    pub proof fn lemma_cut_in_range(&self, count: int)
        requires
            self.can_cut(count),
        ensures
            0 <= count <= self.bytes().len(),
    {
        encode_utf8_valid_utf8(self.slice@);
    }

    /// Metadata for a slice that begins the input: offset 0, line 1,
    /// column 1.
    pub fn new(input: Input<'a>) -> (span: Self)
        ensures
            span.offset == 0,
            span.line == 1,
            span.column == 1,
            span.as_slice() == input,
    {
        Span { offset: 0, line: 1, column: 1, slice: input }
    }

    /// Metadata for a slice at the given offset, line and column.
    pub fn new_at(input: Input<'a>, offset: usize, line: u32, column: u32) -> (span: Self)
        ensures
            span.offset == offset,
            span.line == line,
            span.column == column,
            span.as_slice() == input,
    {
        Span { offset, line, column, slice: input }
    }

    /// Blank metadata: that of the empty slice at the beginning of the
    /// input.
    pub fn blank() -> (span: Self)
        ensures
            span.offset == 0,
            span.line == 1,
            span.column == 1,
            span.as_slice() == "",
    {
        Self::new("")
    }

    /// The slice that the metadata describes.
    #[verifier::when_used_as_spec(spec_as_slice)]
    pub fn as_slice(&self) -> (slice: Input<'a>)
        ensures
            slice == self.spec_as_slice(),
    {
        self.slice
    }

    /// Whether `taken` is the first `count` bytes of the span, at the place
    /// of the span itself.
    pub open spec fn cuts_off(&self, count: int, taken: Span<'a>) -> bool {
        &&& taken.offset == self.offset
        &&& taken.line == self.line
        &&& taken.column == self.column
        &&& taken.bytes() == self.bytes().subrange(0, count)
    }

    /// Whether `rest` is what lies behind the first `count` bytes of the
    /// span, at the place that it has in the input: `count` bytes further
    /// on, as many lines further down as those bytes hold ends of lines,
    /// and in the column that `column_behind` gives.
    pub open spec fn leaves(&self, count: int, rest: Span<'a>) -> bool {
        let taken = self.bytes().subrange(0, count);
        &&& rest.offset == self.offset + count
        &&& rest.line == self.line + occurrences(taken, NEWLINE)
        &&& rest.column == column_behind(self.column as nat, taken)
        &&& rest.bytes() == self.bytes().subrange(count, self.bytes().len() as int)
    }

    /// Whether the slice can be cut `count` bytes from its beginning.
    pub fn can_take(&self, count: usize) -> (ok: bool)
        ensures
            ok == self.can_cut(count as int),
    {
        self.slice.is_char_boundary(count)
    }

    /// Whether the span can be cut `count` bytes from its beginning and the
    /// span behind the cut be described.
    pub fn can_take_split(&self, count: usize) -> (ok: bool)
        ensures
            ok == self.can_split(count as int),
    {
        if !self.slice.is_char_boundary(count) {
            return false;
        }
        proof {
            self.lemma_cut_in_range(count as int);
        }
        if count > usize::MAX - self.offset {
            return false;
        }
        let (taken, _) = self.slice.split_at(count);
        let lines = bytecount::count(taken.as_bytes(), NEWLINE);
        if lines > (u32::MAX - self.line) as usize {
            return false;
        }
        proof {
            lemma_absent_iff_no_occurrences(taken.spec_bytes(), NEWLINE);
        }
        if lines == 0 {
            count <= (u32::MAX - self.column) as usize
        } else {
            match memchr::memrchr(NEWLINE, taken.as_bytes()) {
                Some(last_newline_position) => {
                    proof {
                        lemma_bytes_behind_last(
                            taken.spec_bytes(),
                            NEWLINE,
                            last_newline_position as int,
                        );
                    }
                    count - last_newline_position <= u32::MAX as usize
                },
                None => unreached(),
            }
        }
    }

    /// The first `count` bytes of the span, at the place of the span
    /// itself.
    pub fn take(&self, count: usize) -> (taken: Self)
        requires
            self.can_cut(count as int),
        ensures
            self.cuts_off(count as int, taken),
    {
        proof {
            self.lemma_cut_in_range(count as int);
        }
        let (slice, _) = self.slice.split_at(count);
        Span { offset: self.offset, line: self.line, column: self.column, slice }
    }

    /// The span cut in two `count` bytes from its beginning: first what
    /// lies behind the cut, at the place that the cut has in the input,
    /// then what lies before it, at the place of the span itself.
    pub fn take_split(&self, count: usize) -> (parts: (Self, Self))
        requires
            self.can_split(count as int),
        ensures
            self.leaves(count as int, parts.0),
            self.cuts_off(count as int, parts.1),
    {
        proof {
            self.lemma_cut_in_range(count as int);
        }
        let (slice_a, slice_b) = self.slice.split_at(count);
        let ghost taken = slice_a.spec_bytes();
        proof {
            lemma_occurrences_bound(taken, NEWLINE);
            lemma_absent_iff_no_occurrences(taken, NEWLINE);
        }
        let lines = bytecount::count(slice_a.as_bytes(), NEWLINE) as u32;
        let col_b = if lines == 0 {
            self.column + count as u32
        } else {
            match memchr::memrchr(NEWLINE, slice_a.as_bytes()) {
                Some(last_newline_position) => {
                    proof {
                        lemma_bytes_behind_last(taken, NEWLINE, last_newline_position as int);
                    }
                    (count - last_newline_position) as u32
                },
                None => unreached(),
            }
        };
        (
            Span {
                offset: self.offset + count,
                line: self.line + lines,
                column: col_b,
                slice: slice_b,
            },
            Span { offset: self.offset, line: self.line, column: self.column, slice: slice_a },
        )
    }

    /// A cut loses nothing: the text before it, followed by the text
    /// behind it, is the text of the span.
    pub proof fn lemma_split_keeps_text(&self, count: int, rest: Span<'a>, taken: Span<'a>)
        requires
            self.can_cut(count),
            self.leaves(count, rest),
            self.cuts_off(count, taken),
        ensures
            taken.slice@ + rest.slice@ == self.slice@,
    {
        let bytes = self.bytes();
        encode_utf8_valid_utf8(self.slice@);
        decode_utf8_split(bytes, count);
        encode_utf8_decode_utf8(self.slice@);
        encode_utf8_decode_utf8(taken.slice@);
        encode_utf8_decode_utf8(rest.slice@);
    }
}

} // verus!
