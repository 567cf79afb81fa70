//! Rendering of numbers and padded fields as text.
//!
//! Everything here is stated over `Seq<char>`, the view of a `String`: the
//! spec functions say what a field looks like, the executable functions
//! append exactly that to a `String`.

use vstd::prelude::*;
use vstd::string::*;

verus! {

/// The character that stands for the decimal digit `d`.
pub open spec fn digit(d: int) -> char {
    if d == 0 {
        '0'
    } else if d == 1 {
        '1'
    } else if d == 2 {
        '2'
    } else if d == 3 {
        '3'
    } else if d == 4 {
        '4'
    } else if d == 5 {
        '5'
    } else if d == 6 {
        '6'
    } else if d == 7 {
        '7'
    } else if d == 8 {
        '8'
    } else {
        '9'
    }
}

/// Whether `c` is one of the ten decimal digits.
pub open spec fn is_digit(c: char) -> bool {
    exists|d: int| 0 <= d < 10 && c == #[trigger] digit(d)
}

/// The decimal numeral of `n`, most significant digit first, without
/// leading zeros (`0` is written `"0"`).
pub open spec fn decimal(n: nat) -> Seq<char>
    decreases n,
{
    if n < 10 {
        seq![digit(n as int)]
    } else {
        decimal(n / 10).push(digit((n % 10) as int))
    }
}

/// `count` copies of `fill`; nothing where `count` is not positive.
pub open spec fn repeat(fill: char, count: int) -> Seq<char> {
    Seq::new(
        if count > 0 {
            count as nat
        } else {
            0
        },
        |i: int| fill,
    )
}

/// `s` moved to the right edge of a field of `width` characters, the room
/// before it filled with `fill`. A text longer than the field is kept
/// whole.
pub open spec fn pad_left(s: Seq<char>, width: int, fill: char) -> Seq<char> {
    repeat(fill, width - s.len()) + s
}

/// `s` at the left edge of a field of `width` characters, the room after
/// it filled with `fill`. A text longer than the field is kept whole.
pub open spec fn pad_right(s: Seq<char>, width: int, fill: char) -> Seq<char> {
    s + repeat(fill, width - s.len())
}

/// How often `c` occurs in `text`.
pub open spec fn count_char(text: Seq<char>, c: char) -> nat
    decreases text.len(),
{
    if text.len() == 0 {
        0
    } else {
        count_char(text.drop_last(), c) + if text.last() == c {
            1nat
        } else {
            0nat
        }
    }
}

/// How many lines `text` holds, each counted by the `'\n'` that ends it.
pub open spec fn line_count(text: Seq<char>) -> nat {
    count_char(text, '\n')
}

/// Occurrences in a text of two parts are those in the one part and those
/// in the other.
pub proof fn lemma_count_char_concat(a: Seq<char>, b: Seq<char>, c: char)
    ensures
        count_char(a + b, c) == count_char(a, c) + count_char(b, c),
    decreases b.len(),
{
    if b.len() == 0 {
        assert(a + b =~= a);
    } else {
        assert((a + b).drop_last() =~= a + b.drop_last());
        assert((a + b).last() == b.last());
        lemma_count_char_concat(a, b.drop_last(), c);
    }
}

/// A character that stands nowhere in a text occurs in it no times.
pub proof fn lemma_count_char_absent(text: Seq<char>, c: char)
    requires
        forall|i: int| 0 <= i < text.len() ==> text[i] != c,
    ensures
        count_char(text, c) == 0,
    decreases text.len(),
{
    if text.len() > 0 {
        lemma_count_char_absent(text.drop_last(), c);
    }
}

/// A text that ends in `c` and holds no other `c` holds it once.
pub proof fn lemma_count_char_at_end(text: Seq<char>, c: char)
    requires
        text.len() > 0,
        text.last() == c,
        forall|i: int| 0 <= i < text.len() - 1 ==> text[i] != c,
    ensures
        count_char(text, c) == 1,
{
    lemma_count_char_absent(text.drop_last(), c);
}

/// A numeral is made of digits only.
pub proof fn lemma_decimal_digits(n: nat)
    ensures
        forall|i: int| 0 <= i < decimal(n).len() ==> is_digit(#[trigger] decimal(n)[i]),
    decreases n,
{
    if n >= 10 {
        lemma_decimal_digits(n / 10);
        let front = decimal(n / 10);
        assert forall|i: int| 0 <= i < decimal(n).len() implies is_digit(
            #[trigger] decimal(n)[i],
        ) by {
            if i < front.len() {
                assert(decimal(n)[i] == front[i]);
            } else {
                assert(decimal(n)[i] == digit((n % 10) as int));
            }
        }
    } else {
        assert(decimal(n)[0] == digit(n as int));
    }
}

/// How many decimal digits `n` has.
pub open spec fn digit_count(n: nat) -> nat
    decreases n,
{
    if n < 10 {
        1
    } else {
        digit_count(n / 10) + 1
    }
}

/// The numeral of `n` has `digit_count(n)` characters.
pub proof fn lemma_decimal_len(n: nat)
    ensures
        decimal(n).len() == digit_count(n),
    decreases n,
{
    if n >= 10 {
        lemma_decimal_len(n / 10);
    }
}

/// Ten to the power of `e`.
spec fn pow10(e: nat) -> nat
    decreases e,
{
    if e == 0 {
        1
    } else {
        10 * pow10((e - 1) as nat)
    }
}

/// A number below ten to the `k` has at most `k` digits.
proof fn lemma_digit_count_bound(n: nat, k: nat)
    requires
        k >= 1,
        n < pow10(k),
    ensures
        digit_count(n) <= k,
    decreases k,
{
    assert(pow10(1) == 10) by {
        reveal_with_fuel(pow10, 2);
    }
    if n >= 10 {
        assert(pow10(k) == 10 * pow10((k - 1) as nat));
        lemma_digit_count_bound(n / 10, (k - 1) as nat);
    }
}

/// A 64-bit number has at most twenty digits.
proof fn lemma_digit_count_u64(n: u64)
    ensures
        digit_count(n as nat) <= 20,
{
    assert(pow10(20) == 100_000_000_000_000_000_000) by {
        reveal_with_fuel(pow10, 21);
    }
    lemma_digit_count_bound(n as nat, 20);
}

/// How many decimal digits `n` has.
fn count_digits(n: u64) -> (count: usize)
    ensures
        count == digit_count(n as nat),
{
    let mut rest: u64 = n;
    let mut count: usize = 1;
    proof {
        lemma_digit_count_u64(n);
    }
    while rest >= 10
        invariant
            count + digit_count(rest as nat) == 1 + digit_count(n as nat),
            digit_count(n as nat) <= 20,
        decreases rest,
    {
        rest = rest / 10;
        count = count + 1;
    }
    count
}

/// The text of one decimal digit.
fn digit_str(d: u64) -> (s: &'static str)
    requires
        d < 10,
    ensures
        s@ == seq![digit(d as int)],
{
    proof {
        reveal_strlit("0");
        reveal_strlit("1");
        reveal_strlit("2");
        reveal_strlit("3");
        reveal_strlit("4");
        reveal_strlit("5");
        reveal_strlit("6");
        reveal_strlit("7");
        reveal_strlit("8");
        reveal_strlit("9");
    }
    let s = if d == 0 {
        "0"
    } else if d == 1 {
        "1"
    } else if d == 2 {
        "2"
    } else if d == 3 {
        "3"
    } else if d == 4 {
        "4"
    } else if d == 5 {
        "5"
    } else if d == 6 {
        "6"
    } else if d == 7 {
        "7"
    } else if d == 8 {
        "8"
    } else {
        "9"
    };
    assert(s@ =~= seq![digit(d as int)]);
    s
}

/// Appends the decimal numeral of `n` to `out`.
pub fn push_decimal(out: &mut String, n: u64)
    ensures
        final(out)@ == old(out)@ + decimal(n as nat),
    decreases n,
{
    if n < 10 {
        out.append(digit_str(n));
    } else {
        push_decimal(out, n / 10);
        out.append(digit_str(n % 10));
        assert(out@ =~= old(out)@ + decimal(n as nat));
    }
}

/// Appends `count` copies of the one-character text `fill` to `out`.
pub fn push_repeat(out: &mut String, fill: &str, count: usize)
    requires
        fill@.len() == 1,
    ensures
        final(out)@ == old(out)@ + repeat(fill@[0], count as int),
{
    let mut done: usize = 0;
    while done < count
        invariant
            done <= count,
            fill@.len() == 1,
            out@ == old(out)@ + repeat(fill@[0], done as int),
        decreases count - done,
    {
        out.append(fill);
        done = done + 1;
        assert(out@ =~= old(out)@ + repeat(fill@[0], done as int));
    }
}

/// Appends the decimal numeral of `n` to `out`, at the right edge of a
/// field of `width` characters filled up with the one-character text
/// `fill`.
pub fn push_decimal_padded(out: &mut String, n: u64, width: usize, fill: &str)
    requires
        fill@.len() == 1,
    ensures
        final(out)@ == old(out)@ + pad_left(decimal(n as nat), width as int, fill@[0]),
{
    let digits = count_digits(n);
    proof {
        lemma_decimal_len(n as nat);
    }
    if digits < width {
        push_repeat(out, fill, width - digits);
    }
    push_decimal(out, n);
    assert(out@ =~= old(out)@ + pad_left(decimal(n as nat), width as int, fill@[0]));
}

/// Appends `text` to `out`, at the left edge of a field of `width`
/// characters filled up with the one-character text `fill`.
pub fn push_text_padded(out: &mut String, text: &str, width: usize, fill: &str)
    requires
        fill@.len() == 1,
    ensures
        final(out)@ == old(out)@ + pad_right(text@, width as int, fill@[0]),
{
    let len = text.unicode_len();
    out.append(text);
    if len < width {
        push_repeat(out, fill, width - len);
    }
    assert(out@ =~= old(out)@ + pad_right(text@, width as int, fill@[0]));
}

} // verus!
