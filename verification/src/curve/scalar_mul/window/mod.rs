//! Tables of multiples of a point, read without indexing memory by a
//! secret.

use crate::constant_time::{select_word, words_equal};
use vstd::prelude::*;

pub mod wnaf;

verus! {

/// The word of all ones where the two words are equal, and zero where they
/// are not.
pub fn select_mask(index: u32, current: u32) -> (r: u32)
    ensures
        r == if index == current { 0xffff_ffffu32 } else { 0u32 },
{
    select_word(0, 0xffff_ffff, words_equal(index, current))
}

} // verus!
