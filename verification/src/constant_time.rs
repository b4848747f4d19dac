//! Branch-free selection and comparison, made by the `subtle` crate. The
//! library holds a choice as a `bool`; each function here hands it to
//! `subtle` as a `Choice`.

use subtle::{Choice, ConditionallySelectable, ConstantTimeEq};
use vstd::prelude::*;

verus! {

/// `subtle`'s `u32::conditional_select`: the second word where the choice
/// holds, the first where it does not, found by masking and not by a branch.
#[verifier::external_body]
pub(crate) fn select_word(a: u32, b: u32, choice: bool) -> (r: u32)
    ensures
        r == if choice { b } else { a },
{
    u32::conditional_select(&a, &b, Choice::from(choice as u8))
}

/// `subtle`'s `u32::conditional_swap`: exchanges the two words where the
/// choice holds and leaves them where it does not.
#[verifier::external_body]
pub(crate) fn swap_words(a: &mut u32, b: &mut u32, choice: bool)
    ensures
        *final(a) == if choice { *old(b) } else { *old(a) },
        *final(b) == if choice { *old(a) } else { *old(b) },
{
    u32::conditional_swap(a, b, Choice::from(choice as u8))
}

/// `subtle`'s `u32::ct_eq`: whether two words are equal.
#[verifier::external_body]
pub(crate) fn words_equal(a: u32, b: u32) -> (r: bool)
    ensures
        r == (a == b),
{
    a.ct_eq(&b).into()
}

/// `subtle`'s `ct_eq` on byte slices: whether two byte strings of one
/// length hold the same bytes, found by folding over every byte.
#[verifier::external_body]
pub(crate) fn bytes_equal(a: &[u8; 56], b: &[u8; 56]) -> (r: bool)
    ensures
        r == (a@ == b@),
{
    a[..].ct_eq(&b[..]).into()
}

/// `subtle`'s `|` on two choices: whether at least one of them holds.
#[verifier::external_body]
pub(crate) fn either(a: bool, b: bool) -> (r: bool)
    ensures
        r == (a || b),
{
    (Choice::from(a as u8) | Choice::from(b as u8)).into()
}

/// `subtle`'s `&` on two choices: whether both of them hold.
#[verifier::external_body]
pub(crate) fn both(a: bool, b: bool) -> (r: bool)
    ensures
        r == (a && b),
{
    (Choice::from(a as u8) & Choice::from(b as u8)).into()
}

/// `subtle`'s `^` on two choices: whether exactly one of them holds.
#[verifier::external_body]
pub(crate) fn differ(a: bool, b: bool) -> (r: bool)
    ensures
        r == (a != b),
{
    (Choice::from(a as u8) ^ Choice::from(b as u8)).into()
}

} // verus!
