//! Searching the bytes of source text.
//!
//! The searches themselves are done by the `bytecount` and `memchr`
//! crates. What they return is stated here and taken on trust; everything
//! that the parser builds on it is proved from these statements.

use vstd::prelude::*;

verus! {

/// The byte that ends a line.
pub const NEWLINE: u8 = 10;

/// How often `needle` occurs in `haystack`.
pub open spec fn occurrences(haystack: Seq<u8>, needle: u8) -> nat
    decreases haystack.len(),
{
    if haystack.len() == 0 {
        0
    } else {
        occurrences(haystack.drop_last(), needle) + if haystack.last() == needle {
            1nat
        } else {
            0nat
        }
    }
}

/// How many bytes of `haystack` stand behind its last `needle`: all of
/// them where it holds none.
pub open spec fn bytes_behind_last(haystack: Seq<u8>, needle: u8) -> nat
    decreases haystack.len(),
{
    if haystack.len() == 0 || haystack.last() == needle {
        0
    } else {
        bytes_behind_last(haystack.drop_last(), needle) + 1
    }
}

/// Whether `index` is where `needle` occurs last in `haystack`.
pub open spec fn is_last_occurrence(haystack: Seq<u8>, needle: u8, index: int) -> bool {
    &&& 0 <= index < haystack.len()
    &&& haystack[index] == needle
    &&& forall|later: int| index < later < haystack.len() ==> haystack[later] != needle
}

/// Whether `needle` occurs nowhere in `haystack`.
pub open spec fn is_absent(haystack: Seq<u8>, needle: u8) -> bool {
    forall|index: int| 0 <= index < haystack.len() ==> haystack[index] != needle
}

/// `bytecount::count` returns how often the byte `needle` occurs in
/// `haystack`. Taken on trust from the crate's documentation ("count
/// occurrences of a byte in a slice of bytes") and source; it does not
/// panic on any input.
pub assume_specification[ bytecount::count ](haystack: &[u8], needle: u8) -> (count: usize)
    ensures
        count == occurrences(haystack@, needle),
;

/// `memchr::memrchr` returns the index of the last occurrence of the byte
/// `needle` in `haystack`, or `None` where there is none. Taken on trust
/// from the crate's documentation ("the index corresponding to the last
/// occurrence of `needle` in `haystack`, or `None` if one is not found");
/// it does not panic on any input.
pub assume_specification[ memchr::memrchr ](needle: u8, haystack: &[u8]) -> (found: Option<usize>)
    ensures
        match found {
            Some(index) => is_last_occurrence(haystack@, needle, index as int),
            None => is_absent(haystack@, needle),
        },
;

/// A byte that stands nowhere in a sequence occurs in it no times, and
/// one that occurs no times stands nowhere.
pub proof fn lemma_absent_iff_no_occurrences(haystack: Seq<u8>, needle: u8)
    ensures
        is_absent(haystack, needle) <==> occurrences(haystack, needle) == 0,
    decreases haystack.len(),
{
    if haystack.len() > 0 {
        let front = haystack.drop_last();
        lemma_absent_iff_no_occurrences(front, needle);
        if is_absent(haystack, needle) {
            assert forall|index: int| 0 <= index < front.len() implies front[index]
                != needle by {
                assert(front[index] == haystack[index]);
            }
        }
        if occurrences(haystack, needle) == 0 {
            assert forall|index: int| 0 <= index < haystack.len() implies haystack[index]
                != needle by {
                if index < front.len() {
                    assert(front[index] == haystack[index]);
                }
            }
        }
    }
}

/// Behind the place where a byte occurs last stand the bytes from there
/// to the end.
pub proof fn lemma_bytes_behind_last(haystack: Seq<u8>, needle: u8, index: int)
    requires
        is_last_occurrence(haystack, needle, index),
    ensures
        bytes_behind_last(haystack, needle) == haystack.len() - 1 - index,
    decreases haystack.len(),
{
    if haystack.last() != needle {
        let front = haystack.drop_last();
        assert(is_last_occurrence(front, needle, index)) by {
            assert(front[index] == haystack[index]);
            assert forall|later: int| index < later < front.len() implies front[later]
                != needle by {
                assert(front[later] == haystack[later]);
            }
        }
        lemma_bytes_behind_last(front, needle, index);
    }
}

/// There are no more occurrences than bytes.
pub proof fn lemma_occurrences_bound(haystack: Seq<u8>, needle: u8)
    ensures
        occurrences(haystack, needle) <= haystack.len(),
    decreases haystack.len(),
{
    if haystack.len() > 0 {
        lemma_occurrences_bound(haystack.drop_last(), needle);
    }
}

} // verus!
