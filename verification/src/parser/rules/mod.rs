//! The first rules of the grammar: blank space between tokens, and
//! identifiers.
//!
//! A rule reads a span from its beginning and cuts it in two: what it
//! matched, and the rest of the input. Which characters count as letters
//! and digits is decided by the standard library, for all of Unicode; the
//! rules take its answers on trust and are proved for whatever they are.

use crate::parser::tokens::Span;
use vstd::prelude::*;
use vstd::std_specs::iter::IteratorSpec;
use vstd::string::*;
use vstd::utf8::*;

verus! {

/// What `char::is_alphanumeric` answers for `c`.
pub uninterp spec fn alphanumeric(c: char) -> bool;

/// What `char::is_alphabetic` answers for `c`.
pub uninterp spec fn alphabetic(c: char) -> bool;

/// `char::is_alphanumeric` of the standard library: whether Unicode
/// classes a character as a letter or a number. The answer depends on the
/// character alone; it is given the name `alphanumeric`, and nothing more
/// is claimed of it.
pub assume_specification[ char::is_alphanumeric ](c: char) -> (answer: bool)
    ensures
        answer == alphanumeric(c),
;

/// `char::is_alphabetic` of the standard library: whether Unicode classes
/// a character as alphabetic. The answer depends on the character alone;
/// it is given the name `alphabetic`, and nothing more is claimed of it.
pub assume_specification[ char::is_alphabetic ](c: char) -> (answer: bool)
    ensures
        answer == alphabetic(c),
;

/// The kinds of characters that the rules tell apart.
#[derive(PartialEq, Eq, Debug, Clone, Copy, Structural)]
pub enum CharClass {
    /// What an identifier is made of: letters, numbers and `_`.
    Word,
    /// Blank space: space, tab, carriage return and line feed.
    Space,
}

impl CharClass {
    /// Whether `c` belongs to the class.
    pub open spec fn holds(self, c: char) -> bool {
        match self {
            CharClass::Word => alphanumeric(c) || c == '_',
            CharClass::Space => c == ' ' || c == '\t' || c == '\r' || c == '\n',
        }
    }

    /// Whether `c` belongs to the class.
    pub fn accepts(self, c: char) -> (answer: bool)
        ensures
            answer == self.holds(c),
    {
        match self {
            CharClass::Word => c.is_alphanumeric() || c == '_',
            CharClass::Space => c == ' ' || c == '\t' || c == '\r' || c == '\n',
        }
    }
}

/// Whether an identifier may begin with `c`: with a letter or `_`.
pub open spec fn starts_word(c: char) -> bool {
    alphabetic(c) || c == '_'
}

/// How many characters at the beginning of `text` belong to `class`.
pub open spec fn leading(text: Seq<char>, class: CharClass) -> nat
    decreases text.len(),
{
    if text.len() == 0 || !class.holds(text[0]) {
        0
    } else {
        leading(text.drop_first(), class) + 1
    }
}

/// How many bytes the characters at the beginning of `text` that belong
/// to `class` take in UTF-8.
pub open spec fn leading_bytes(text: Seq<char>, class: CharClass) -> nat {
    encode_utf8(text.take(leading(text, class) as int)).len()
}

/// The first `count` characters of `text` are its leading characters of
/// `class` where they all belong to it and the next one, if there is one,
/// does not.
pub proof fn lemma_leading(text: Seq<char>, class: CharClass, count: nat)
    requires
        count <= text.len(),
        forall|i: int| 0 <= i < count ==> class.holds(text[i]),
        count == text.len() || !class.holds(text[count as int]),
    ensures
        leading(text, class) == count,
    decreases count,
{
    if count > 0 {
        let rest = text.drop_first();
        assert forall|i: int| 0 <= i < count - 1 implies class.holds(rest[i]) by {
            assert(rest[i] == text[i + 1]);
        }
        lemma_leading(rest, class, (count - 1) as nat);
    }
}

/// The leading characters of a class are as many as can be: each of them
/// belongs to the class, and the character behind them, if there is one,
/// does not.
pub proof fn lemma_leading_is_longest(text: Seq<char>, class: CharClass)
    ensures
        leading(text, class) <= text.len(),
        forall|i: int| 0 <= i < leading(text, class) ==> class.holds(text[i]),
        leading(text, class) < text.len() ==> !class.holds(text[leading(text, class) as int]),
    decreases text.len(),
{
    if text.len() > 0 && class.holds(text[0]) {
        let rest = text.drop_first();
        lemma_leading_is_longest(rest, class);
        assert forall|i: int| 0 <= i < leading(text, class) implies class.holds(text[i]) by {
            if i > 0 {
                assert(text[i] == rest[i - 1]);
            }
        }
        if leading(text, class) < text.len() {
            assert(text[leading(text, class) as int] == rest[leading(rest, class) as int]);
        }
    }
}

/// The encoding of a text begins with the encoding of its first `count`
/// characters and goes on with the encoding of the others, and where the
/// one ends and the other begins no character is cut through.
pub proof fn lemma_encode_prefix(text: Seq<char>, count: int)
    requires
        0 <= count <= text.len(),
    ensures
        count <= encode_utf8(text.take(count)).len() <= encode_utf8(text).len(),
        is_char_boundary(encode_utf8(text), encode_utf8(text.take(count)).len() as int),
        encode_utf8(text).subrange(0, encode_utf8(text.take(count)).len() as int) == encode_utf8(
            text.take(count),
        ),
        encode_utf8(text).subrange(
            encode_utf8(text.take(count)).len() as int,
            encode_utf8(text).len() as int,
        ) == encode_utf8(text.skip(count)),
    decreases count,
{
    let bytes = encode_utf8(text);
    encode_utf8_valid_utf8(text);
    if count == 0 {
        assert(text.take(count) =~= Seq::<char>::empty());
        assert(text.skip(count) =~= text);
        assert(bytes.subrange(0, 0) =~= encode_utf8(text.take(count)));
        assert(bytes.subrange(0, bytes.len() as int) =~= bytes);
    } else {
        let rest = text.drop_first();
        let first = encode_scalar(text[0] as u32);
        let front = text.take(count);
        lemma_encode_prefix(rest, count - 1);
        assert(front.drop_first() =~= rest.take(count - 1));
        assert(front[0] == text[0]);
        assert(text.skip(count) =~= rest.skip(count - 1));
        encode_utf8_first_scalar(text);
        assert(pop_first_scalar(bytes) =~= encode_utf8(rest));
        let cut = encode_utf8(front).len() as int;
        let inner = encode_utf8(rest.take(count - 1)).len() as int;
        assert(cut == first.len() + inner);
        assert(first.len() >= 1);
        assert(bytes.subrange(0, cut) =~= encode_utf8(front)) by {
            assert(encode_utf8(rest).subrange(0, inner) == encode_utf8(rest.take(count - 1)));
            assert(bytes.subrange(0, cut) =~= first + encode_utf8(rest).subrange(0, inner));
        }
        assert(bytes.subrange(cut, bytes.len() as int) =~= encode_utf8(rest).subrange(
            inner,
            encode_utf8(rest).len() as int,
        ));
    }
}

/// How many bytes the characters at the beginning of `text` that belong to
/// `class` take.
pub fn measure(text: &str, class: CharClass) -> (len: usize)
    ensures
        len == leading_bytes(text@, class),
        text@.len() > 0 ==> (len > 0 <==> class.holds(text@[0])),
        is_char_boundary(text.spec_bytes(), len as int),
{
    let total = text.as_bytes().len();
    let mut chars = text.chars();
    let mut count: usize = 0;
    proof {
        lemma_encode_prefix(text@, text@.len() as int);
        assert(text@.take(text@.len() as int) =~= text@);
    }
    loop
        invariant_except_break
            chars.obeys_prophetic_iter_laws(),
            chars.remaining() == text@.skip(count as int),
        invariant
            count <= text@.len() <= total,
            forall|i: int| 0 <= i < count ==> class.holds(text@[i]),
        ensures
            count <= text@.len(),
            forall|i: int| 0 <= i < count ==> class.holds(text@[i]),
            count == text@.len() || !class.holds(text@[count as int]),
        decreases text@.len() - count,
    {
        match chars.next() {
            Some(c) => {
                assert(c == text@[count as int]);
                if !class.accepts(c) {
                    break ;
                }
                assert(text@.skip(count as int).drop_first() =~= text@.skip(count + 1));
                count = count + 1;
            },
            None => {
                break ;
            },
        }
    }
    proof {
        lemma_leading(text@, class, count as nat);
        lemma_encode_prefix(text@, count as int);
    }
    let prefix = text.substring_char(0, count);
    assert(prefix@ =~= text@.take(count as int));
    prefix.len()
}

/// A span cut behind its leading characters of a class falls into those
/// characters and the others: what is taken is made of the class
/// throughout, and what is left does not begin with it.
pub proof fn lemma_cut_behind_leading<'a>(
    input: Span<'a>,
    class: CharClass,
    rest: Span<'a>,
    taken: Span<'a>,
)
    requires
        input.leaves(leading_bytes(input.slice@, class) as int, rest),
        input.cuts_off(leading_bytes(input.slice@, class) as int, taken),
    ensures
        taken.slice@ == input.slice@.take(leading(input.slice@, class) as int),
        rest.slice@ == input.slice@.skip(leading(input.slice@, class) as int),
        forall|i: int| 0 <= i < taken.slice@.len() ==> class.holds(taken.slice@[i]),
        rest.slice@.len() > 0 ==> !class.holds(rest.slice@[0]),
{
    let text = input.slice@;
    let count = leading(text, class) as int;
    lemma_leading_is_longest(text, class);
    lemma_encode_prefix(text, count);
    encode_utf8_decode_utf8(taken.slice@);
    encode_utf8_decode_utf8(rest.slice@);
    encode_utf8_decode_utf8(text.take(count));
    encode_utf8_decode_utf8(text.skip(count));
}

/// Why a rule did not match.
#[derive(PartialEq, Eq, Debug, Clone, Copy, Structural)]
pub enum ErrorKind {
    /// Not one character of the kind that the rule takes stands at the
    /// beginning of the input.
    TakeWhile1,
    /// What the rule took is not what it may be.
    Verify,
}

/// A rule that did not match: the input that it was given, and why.
#[derive(PartialEq, Debug, Clone, Copy)]
pub struct ParseError<'a> {
    /// The input that the rule was given.
    pub input: Span<'a>,
    /// Why the rule did not match.
    pub kind: ErrorKind,
}

/// What the rule for identifiers gives for `input`, where the leading
/// word characters of the input take `len` bytes and `starts_well` says
/// whether the first of them may begin an identifier.
///
/// Without a word character there is no identifier. A word that begins
/// with a number is none either. Otherwise the identifier is the whole
/// word: the input is cut behind it, and the rule gives the rest and the
/// word, in that order.
pub open spec fn identifier_outcome<'a>(
    input: Span<'a>,
    len: nat,
    starts_well: bool,
    result: Result<(Span<'a>, Span<'a>), ParseError<'a>>,
) -> bool {
    match result {
        Ok((rest, name)) => {
            &&& len > 0
            &&& starts_well
            &&& input.leaves(len as int, rest)
            &&& input.cuts_off(len as int, name)
        },
        Err(error) => {
            &&& error.input == input
            &&& if len == 0 {
                error.kind == ErrorKind::TakeWhile1
            } else {
                !starts_well && error.kind == ErrorKind::Verify
            }
        },
    }
}

/// How many bytes the word at the beginning of `text` takes.
pub open spec fn word_bytes(text: Seq<char>) -> nat {
    leading_bytes(text, CharClass::Word)
}

/// How many bytes the blank space at the beginning of `text` takes.
pub open spec fn space_bytes(text: Seq<char>) -> nat {
    leading_bytes(text, CharClass::Space)
}

/// Whether `text` begins with a character that may begin an identifier.
pub open spec fn begins_well(text: Seq<char>) -> bool {
    text.len() > 0 && starts_word(text[0])
}

/// Whether the rule for identifiers can describe what it leaves of
/// `input`: where the input begins with a word, the span behind the word
/// must be one that `Span::take_split` can give.
pub open spec fn identifier_fits(input: Span) -> bool {
    word_bytes(input.slice@) > 0 ==> input.can_split(word_bytes(input.slice@) as int)
}

/// The second half of the rule for identifiers: what it gives once the
/// word at the beginning of `input` has been measured and its first
/// character looked at.
pub fn split_identifier<'a>(input: Span<'a>, len: usize, starts_well: bool) -> (result: Result<
    (Span<'a>, Span<'a>),
    ParseError<'a>,
>)
    requires
        len > 0 ==> input.can_split(len as int),
    ensures
        identifier_outcome(input, len as nat, starts_well, result),
{
    if len == 0 {
        return Err(ParseError { input, kind: ErrorKind::TakeWhile1 });
    }
    let (rest, name) = input.take_split(len);
    if starts_well {
        Ok((rest, name))
    } else {
        Err(ParseError { input, kind: ErrorKind::Verify })
    }
}

/// Whether the first character of `text` may begin an identifier.
fn begins_identifier(text: &str) -> (answer: bool)
    ensures
        answer == begins_well(text@),
{
    let mut chars = text.chars();
    match chars.next() {
        Some(c) => c.is_alphabetic() || c == '_',
        None => false,
    }
}

/// Matches any identifier.
///
/// An identifier is a sequence of characters where the first character is
/// a letter or `_` and each further character is a letter, a number or
/// `_`.
pub fn identifier<'a>(input: Span<'a>) -> (result: Result<(Span<'a>, Span<'a>), ParseError<'a>>)
    requires
        identifier_fits(input),
    ensures
        identifier_outcome(input, word_bytes(input.slice@), begins_well(input.slice@), result),
{
    let len = measure(input.as_slice(), CharClass::Word);
    let starts_well = begins_identifier(input.as_slice());
    split_identifier(input, len, starts_well)
}

/// Matches any identifier, wherever the span stands: `None` where the
/// span behind the word cannot be described, and what `identifier` gives
/// otherwise.
pub fn checked_identifier<'a>(input: Span<'a>) -> (checked: Option<
    Result<(Span<'a>, Span<'a>), ParseError<'a>>,
>)
    ensures
        checked is Some <==> identifier_fits(input),
        checked matches Some(result) ==> identifier_outcome(
            input,
            word_bytes(input.slice@),
            begins_well(input.slice@),
            result,
        ),
{
    let len = measure(input.as_slice(), CharClass::Word);
    if len == 0 || input.can_take_split(len) {
        Some(identifier(input))
    } else {
        None
    }
}

/// Ignores any blank space before what `parser` matches: the parser is
/// given the input behind its leading spaces, tabs, carriage returns and
/// line feeds, and what it gives is handed back.
pub fn ws<'a, O, F>(parser: F, input: Span<'a>) -> (result: Result<(Span<'a>, O), ParseError<'a>>)
    where F: Fn(Span<'a>) -> Result<(Span<'a>, O), ParseError<'a>>
    requires
        input.can_split(space_bytes(input.slice@) as int),
        forall|rest: Span<'a>|
            input.leaves(space_bytes(input.slice@) as int, rest) ==> parser.requires((rest,)),
    ensures
        exists|rest: Span<'a>|
            input.leaves(space_bytes(input.slice@) as int, rest) && parser.ensures(
                (rest,),
                result,
            ),
{
    let len = measure(input.as_slice(), CharClass::Space);
    let (rest, _) = input.take_split(len);
    parser(rest)
}

} // verus!
