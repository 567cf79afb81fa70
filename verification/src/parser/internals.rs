//! Utilities needed throughout the parser.

use vstd::prelude::*;

verus! {

/// The type of input that the parser reads.
pub type Input<'a> = &'a str;

} // verus!
