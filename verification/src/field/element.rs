//! Elements of the field of integers modulo `p = 2^448 - 2^224 - 1`, held as
//! sixteen limbs in radix `2^28`.

use crate::constant_time::{bytes_equal, select_word, swap_words};
use vstd::prelude::*;

verus! {

/// The Goldilocks prime `p = 2^448 - 2^224 - 1`.
pub open spec fn field_modulus() -> int {
    0xfffffffffffffffffffffffffffffffffffffffffffffffffffffffeffffffffffffffffffffffffffffffffffffffffffffffffffffffffint
}

/// The integer that sixteen radix-`2^28` limbs stand for, least significant
/// limb first.
#[verifier::opaque]
pub open spec fn limbs_value(l: [u32; 16]) -> int {
    l[0] as int
    + l[1] * 0x10000000int
    + l[2] * 0x100000000000000int
    + l[3] * 0x1000000000000000000000int
    + l[4] * 0x10000000000000000000000000000int
    + l[5] * 0x100000000000000000000000000000000000int
    + l[6] * 0x1000000000000000000000000000000000000000000int
    + l[7] * 0x10000000000000000000000000000000000000000000000000int
    + l[8] * 0x100000000000000000000000000000000000000000000000000000000int
    + l[9] * 0x1000000000000000000000000000000000000000000000000000000000000000int
    + l[10] * 0x10000000000000000000000000000000000000000000000000000000000000000000000int
    + l[11] * 0x100000000000000000000000000000000000000000000000000000000000000000000000000000int
    + l[12] * 0x1000000000000000000000000000000000000000000000000000000000000000000000000000000000000int
    + l[13] * 0x10000000000000000000000000000000000000000000000000000000000000000000000000000000000000000000int
    + l[14] * 0x100000000000000000000000000000000000000000000000000000000000000000000000000000000000000000000000000int
    + l[15] * 0x1000000000000000000000000000000000000000000000000000000000000000000000000000000000000000000000000000000000int
}

/// The integer that seven bytes stand for, least significant byte first,
/// starting at byte `start` of `b`.
pub open spec fn group_value(b: Seq<u8>, start: int) -> int {
    b[start] as int
    + b[start + 1] * 0x100int
    + b[start + 2] * 0x1_0000int
    + b[start + 3] * 0x100_0000int
    + b[start + 4] * 0x1_0000_0000int
    + b[start + 5] * 0x100_0000_0000int
    + b[start + 6] * 0x1_0000_0000_0000int
}

/// The integer that the first 56 bytes of `b` stand for, least significant
/// byte first.
#[verifier::opaque]
pub open spec fn bytes_value(b: Seq<u8>) -> int {
    group_value(b, 0)
    + group_value(b, 7) * 0x100000000000000int
    + group_value(b, 14) * 0x10000000000000000000000000000int
    + group_value(b, 21) * 0x1000000000000000000000000000000000000000000int
    + group_value(b, 28) * 0x100000000000000000000000000000000000000000000000000000000int
    + group_value(b, 35) * 0x10000000000000000000000000000000000000000000000000000000000000000000000int
    + group_value(b, 42) * 0x1000000000000000000000000000000000000000000000000000000000000000000000000000000000000int
    + group_value(b, 49) * 0x100000000000000000000000000000000000000000000000000000000000000000000000000000000000000000000000000int
}

/// Addition of residues modulo `p`.
pub open spec fn field_add(x: int, y: int) -> int {
    (x + y) % field_modulus()
}

/// Subtraction of residues modulo `p`.
pub open spec fn field_sub(x: int, y: int) -> int {
    (x - y) % field_modulus()
}

/// Multiplication of residues modulo `p`.
pub open spec fn field_mul(x: int, y: int) -> int {
    (x * y) % field_modulus()
}

/// Negation of a residue modulo `p`.
pub open spec fn field_neg(x: int) -> int {
    (-x) % field_modulus()
}

/// The word that an integer between `-2^32` and `2^33` wraps to.
pub open spec fn wrapped(x: int) -> int {
    if x < 0 {
        x + 0x1_0000_0000
    } else if x > 0xffff_ffff {
        x - 0x1_0000_0000
    } else {
        x
    }
}

/// The mask that keeps the low 28 bits of a word.
pub const MASK: u32 = 0x0fff_ffff;

/// An element of the field, as sixteen limbs in radix `2^28`. A limb may
/// exceed 28 bits and the integer that the limbs stand for may exceed the
/// modulus: the element is the residue of that integer.
#[derive(Copy, Clone, Debug)]
pub struct FieldElement28(pub [u32; 16]);

/// Splits a word into its low 28 bits and the bits above them.
fn split28(x: u32) -> (r: (u32, u32))
    ensures
        x == r.1 * 0x1000_0000 + r.0,
        r.0 <= MASK,
        r.1 <= 15,
{
    assert(x == (x >> 28) * 0x1000_0000 + (x & 0x0fff_ffff) && (x & 0x0fff_ffff) <= 0x0fff_ffff
        && (x >> 28) <= 15) by (bit_vector);
    (x & MASK, x >> 28)
}

/// Splits a wide word into its low 28 bits and the bits above them.
fn split28_wide(x: u64) -> (r: (u32, u64))
    ensures
        x == r.1 * 0x1000_0000 + r.0,
        r.0 <= MASK,
        r.1 <= 0xf_ffff_ffff,
{
    assert(x == (x >> 28) * 0x1000_0000 + (x & 0x0fff_ffff) && (x & 0x0fff_ffff) <= 0x0fff_ffff
        && (x >> 28) <= 0xf_ffff_ffff) by (bit_vector);
    ((x & 0x0fff_ffff) as u32, x >> 28)
}

/// Carrying each limb's excess over 28 bits into the next limb, and the top
/// limb's excess into limbs 0 and 8, subtracts a multiple of the modulus.
proof fn lemma_carry_round(
    l: [u32; 16],
    n: [u32; 16],
    lo: [u32; 16],
    hi: [u32; 16],
    lo8: int,
    hi8: int,
)
    requires
        forall|i: int| 0 <= i < 16 ==> l[i] == #[trigger] hi[i] * 0x1000_0000 + lo[i],
        l[8] + hi[15] == hi8 * 0x1000_0000 + lo8,
        n[0] == lo[0] + hi[15],
        forall|i: int| 1 <= i < 16 && i != 8 && i != 9 ==> #[trigger] n[i] == lo[i] + hi[i - 1],
        n[8] == lo8 + hi[7],
        n[9] == lo[9] + hi8,
    ensures
        limbs_value(n) == limbs_value(l) - hi[15] * field_modulus(),
{
    reveal(limbs_value);
    assert(l[0] == hi[0] * 0x1000_0000 + lo[0]);
    assert(l[1] == hi[1] * 0x1000_0000 + lo[1]);
    assert(l[2] == hi[2] * 0x1000_0000 + lo[2]);
    assert(l[3] == hi[3] * 0x1000_0000 + lo[3]);
    assert(l[4] == hi[4] * 0x1000_0000 + lo[4]);
    assert(l[5] == hi[5] * 0x1000_0000 + lo[5]);
    assert(l[6] == hi[6] * 0x1000_0000 + lo[6]);
    assert(l[7] == hi[7] * 0x1000_0000 + lo[7]);
    assert(l[9] == hi[9] * 0x1000_0000 + lo[9]);
    assert(l[10] == hi[10] * 0x1000_0000 + lo[10]);
    assert(l[11] == hi[11] * 0x1000_0000 + lo[11]);
    assert(l[12] == hi[12] * 0x1000_0000 + lo[12]);
    assert(l[13] == hi[13] * 0x1000_0000 + lo[13]);
    assert(l[14] == hi[14] * 0x1000_0000 + lo[14]);
    assert(l[15] == hi[15] * 0x1000_0000 + lo[15]);
    assert(n[1] == lo[1] + hi[0]);
    assert(n[2] == lo[2] + hi[1]);
    assert(n[3] == lo[3] + hi[2]);
    assert(n[4] == lo[4] + hi[3]);
    assert(n[5] == lo[5] + hi[4]);
    assert(n[6] == lo[6] + hi[5]);
    assert(n[7] == lo[7] + hi[6]);
    assert(n[10] == lo[10] + hi[9]);
    assert(n[11] == lo[11] + hi[10]);
    assert(n[12] == lo[12] + hi[11]);
    assert(n[13] == lo[13] + hi[12]);
    assert(n[14] == lo[14] + hi[13]);
    assert(n[15] == lo[15] + hi[14]);
}

/// The only residue below the modulus that differs from `v` by a multiple
/// of the modulus is `v % p`.
pub proof fn lemma_residue_unique(v: int, r: int, k: int)
    requires
        v == r + k * field_modulus(),
        0 <= r < field_modulus(),
    ensures
        r == v % field_modulus(),
{
    vstd::arithmetic::div_mod::lemma_fundamental_div_mod_converse(v, field_modulus(), k, r);
}

/// Limbs of at most 28 bits stand for an integer below `2^448`.
pub proof fn lemma_limbs_bound(l: [u32; 16])
    requires
        forall|i: int| 0 <= i < 16 ==> #[trigger] l[i] <= MASK,
    ensures
        0 <= limbs_value(l) < 0x10000000000000000000000000000000000000000000000000000000000000000000000000000000000000000000000000000000000000000int,
{
    reveal(limbs_value);
    assert(l[0] <= MASK);
    assert(l[1] <= MASK);
    assert(l[2] <= MASK);
    assert(l[3] <= MASK);
    assert(l[4] <= MASK);
    assert(l[5] <= MASK);
    assert(l[6] <= MASK);
    assert(l[7] <= MASK);
    assert(l[8] <= MASK);
    assert(l[9] <= MASK);
    assert(l[10] <= MASK);
    assert(l[11] <= MASK);
    assert(l[12] <= MASK);
    assert(l[13] <= MASK);
    assert(l[14] <= MASK);
    assert(l[15] <= MASK);
}

/// Limbs that a carry round has left stand for an integer below `2p`.
proof fn lemma_weak_bound(l: [u32; 16])
    requires
        forall|i: int| 0 <= i < 16 ==> #[trigger] l[i] <= 0x1000_000f,
    ensures
        0 <= limbs_value(l) < 2 * field_modulus(),
{
    reveal(limbs_value);
    assert(l[0] <= 0x1000_000f);
    assert(l[1] <= 0x1000_000f);
    assert(l[2] <= 0x1000_000f);
    assert(l[3] <= 0x1000_000f);
    assert(l[4] <= 0x1000_000f);
    assert(l[5] <= 0x1000_000f);
    assert(l[6] <= 0x1000_000f);
    assert(l[7] <= 0x1000_000f);
    assert(l[8] <= 0x1000_000f);
    assert(l[9] <= 0x1000_000f);
    assert(l[10] <= 0x1000_000f);
    assert(l[11] <= 0x1000_000f);
    assert(l[12] <= 0x1000_000f);
    assert(l[13] <= 0x1000_000f);
    assert(l[14] <= 0x1000_000f);
    assert(l[15] <= 0x1000_000f);
}

/// A borrow chain that subtracts the modulus limb by limb subtracts the
/// modulus, up to the borrow out of the top limb.
proof fn lemma_sub_chain(l: [u32; 16], s: [u32; 16], b: [u32; 16])
    requires
        l[0] - MASK == s[0] - 0x1000_0000 * b[0],
        l[8] - (MASK - 1) - b[7] == s[8] - 0x1000_0000 * b[8],
        forall|i: int|
            1 <= i < 16 && i != 8 ==> l[i] - MASK - b[i - 1] == #[trigger] s[i] - 0x1000_0000 * b[i],
    ensures
        limbs_value(s) - b[15] * 0x10000000000000000000000000000000000000000000000000000000000000000000000000000000000000000000000000000000000000000int == limbs_value(l) - field_modulus(),
{
    reveal(limbs_value);
    assert(l[1] - MASK - b[0] == s[1] - 0x1000_0000 * b[1]);
    assert(l[2] - MASK - b[1] == s[2] - 0x1000_0000 * b[2]);
    assert(l[3] - MASK - b[2] == s[3] - 0x1000_0000 * b[3]);
    assert(l[4] - MASK - b[3] == s[4] - 0x1000_0000 * b[4]);
    assert(l[5] - MASK - b[4] == s[5] - 0x1000_0000 * b[5]);
    assert(l[6] - MASK - b[5] == s[6] - 0x1000_0000 * b[6]);
    assert(l[7] - MASK - b[6] == s[7] - 0x1000_0000 * b[7]);
    assert(l[9] - MASK - b[8] == s[9] - 0x1000_0000 * b[9]);
    assert(l[10] - MASK - b[9] == s[10] - 0x1000_0000 * b[10]);
    assert(l[11] - MASK - b[10] == s[11] - 0x1000_0000 * b[11]);
    assert(l[12] - MASK - b[11] == s[12] - 0x1000_0000 * b[12]);
    assert(l[13] - MASK - b[12] == s[13] - 0x1000_0000 * b[13]);
    assert(l[14] - MASK - b[13] == s[14] - 0x1000_0000 * b[14]);
    assert(l[15] - MASK - b[14] == s[15] - 0x1000_0000 * b[15]);
}

/// A carry chain that adds `t` times the modulus limb by limb adds it, up to
/// the carry out of the top limb.
proof fn lemma_add_chain(s: [u32; 16], r: [u32; 16], c: [u32; 16], t: int)
    requires
        s[0] + t * 0x0fff_ffff == r[0] + 0x1000_0000 * c[0],
        s[8] + t * 0x0fff_fffe + c[7] == r[8] + 0x1000_0000 * c[8],
        forall|i: int|
            1 <= i < 16 && i != 8 ==> s[i] + t * 0x0fff_ffff + c[i - 1] == #[trigger] r[i] + 0x1000_0000 * c[i],
    ensures
        limbs_value(r) + c[15] * 0x10000000000000000000000000000000000000000000000000000000000000000000000000000000000000000000000000000000000000000int == limbs_value(s) + t * field_modulus(),
{
    reveal(limbs_value);
    assert(s[1] + t * 0x0fff_ffff + c[0] == r[1] + 0x1000_0000 * c[1]);
    assert(s[2] + t * 0x0fff_ffff + c[1] == r[2] + 0x1000_0000 * c[2]);
    assert(s[3] + t * 0x0fff_ffff + c[2] == r[3] + 0x1000_0000 * c[3]);
    assert(s[4] + t * 0x0fff_ffff + c[3] == r[4] + 0x1000_0000 * c[4]);
    assert(s[5] + t * 0x0fff_ffff + c[4] == r[5] + 0x1000_0000 * c[5]);
    assert(s[6] + t * 0x0fff_ffff + c[5] == r[6] + 0x1000_0000 * c[6]);
    assert(s[7] + t * 0x0fff_ffff + c[6] == r[7] + 0x1000_0000 * c[7]);
    assert(s[9] + t * 0x0fff_ffff + c[8] == r[9] + 0x1000_0000 * c[9]);
    assert(s[10] + t * 0x0fff_ffff + c[9] == r[10] + 0x1000_0000 * c[10]);
    assert(s[11] + t * 0x0fff_ffff + c[10] == r[11] + 0x1000_0000 * c[11]);
    assert(s[12] + t * 0x0fff_ffff + c[11] == r[12] + 0x1000_0000 * c[12]);
    assert(s[13] + t * 0x0fff_ffff + c[12] == r[13] + 0x1000_0000 * c[13]);
    assert(s[14] + t * 0x0fff_ffff + c[13] == r[14] + 0x1000_0000 * c[14]);
    assert(s[15] + t * 0x0fff_ffff + c[14] == r[15] + 0x1000_0000 * c[15]);
}

/// Adding `b` times the limbs of the modulus adds `b` times the modulus.
proof fn lemma_bias(a: [u32; 16], r: [u32; 16], b: int)
    requires
        r[8] == a[8] + b * 0x0fff_fffe,
        forall|i: int| 0 <= i < 16 && i != 8 ==> #[trigger] r[i] == a[i] + b * 0x0fff_ffff,
    ensures
        limbs_value(r) == limbs_value(a) + b * field_modulus(),
{
    reveal(limbs_value);
    assert(r[0] == a[0] + b * 0x0fff_ffff);
    assert(r[1] == a[1] + b * 0x0fff_ffff);
    assert(r[2] == a[2] + b * 0x0fff_ffff);
    assert(r[3] == a[3] + b * 0x0fff_ffff);
    assert(r[4] == a[4] + b * 0x0fff_ffff);
    assert(r[5] == a[5] + b * 0x0fff_ffff);
    assert(r[6] == a[6] + b * 0x0fff_ffff);
    assert(r[7] == a[7] + b * 0x0fff_ffff);
    assert(r[9] == a[9] + b * 0x0fff_ffff);
    assert(r[10] == a[10] + b * 0x0fff_ffff);
    assert(r[11] == a[11] + b * 0x0fff_ffff);
    assert(r[12] == a[12] + b * 0x0fff_ffff);
    assert(r[13] == a[13] + b * 0x0fff_ffff);
    assert(r[14] == a[14] + b * 0x0fff_ffff);
    assert(r[15] == a[15] + b * 0x0fff_ffff);
}

/// The sum of the limbs stands for the sum of the integers.
proof fn lemma_limbs_sum(a: [u32; 16], b: [u32; 16], r: [u32; 16])
    requires
        forall|i: int| 0 <= i < 16 ==> #[trigger] r[i] == a[i] + b[i],
    ensures
        limbs_value(r) == limbs_value(a) + limbs_value(b),
{
    reveal(limbs_value);
    assert(r[0] == a[0] + b[0]);
    assert(r[1] == a[1] + b[1]);
    assert(r[2] == a[2] + b[2]);
    assert(r[3] == a[3] + b[3]);
    assert(r[4] == a[4] + b[4]);
    assert(r[5] == a[5] + b[5]);
    assert(r[6] == a[6] + b[6]);
    assert(r[7] == a[7] + b[7]);
    assert(r[8] == a[8] + b[8]);
    assert(r[9] == a[9] + b[9]);
    assert(r[10] == a[10] + b[10]);
    assert(r[11] == a[11] + b[11]);
    assert(r[12] == a[12] + b[12]);
    assert(r[13] == a[13] + b[13]);
    assert(r[14] == a[14] + b[14]);
    assert(r[15] == a[15] + b[15]);
}

/// The difference of the limbs stands for the difference of the integers.
proof fn lemma_limbs_difference(a: [u32; 16], b: [u32; 16], r: [u32; 16])
    requires
        forall|i: int| 0 <= i < 16 ==> #[trigger] r[i] == a[i] - b[i],
    ensures
        limbs_value(r) == limbs_value(a) - limbs_value(b),
{
    reveal(limbs_value);
    assert(r[0] == a[0] - b[0]);
    assert(r[1] == a[1] - b[1]);
    assert(r[2] == a[2] - b[2]);
    assert(r[3] == a[3] - b[3]);
    assert(r[4] == a[4] - b[4]);
    assert(r[5] == a[5] - b[5]);
    assert(r[6] == a[6] - b[6]);
    assert(r[7] == a[7] - b[7]);
    assert(r[8] == a[8] - b[8]);
    assert(r[9] == a[9] - b[9]);
    assert(r[10] == a[10] - b[10]);
    assert(r[11] == a[11] - b[11]);
    assert(r[12] == a[12] - b[12]);
    assert(r[13] == a[13] - b[13]);
    assert(r[14] == a[14] - b[14]);
    assert(r[15] == a[15] - b[15]);
}

/// A byte string stands for an even integer exactly when its first byte is
/// even.
proof fn lemma_bytes_parity(b: Seq<u8>)
    ensures
        bytes_value(b) % 2 == b[0] % 2,
{
    reveal(bytes_value);
    let rest = b[1] * 0x80int
        + b[2] * 0x8000int
        + b[3] * 0x800000int
        + b[4] * 0x80000000int
        + b[5] * 0x8000000000int
        + b[6] * 0x800000000000int
        + b[7] * 0x80000000000000int
        + b[8] * 0x8000000000000000int
        + b[9] * 0x800000000000000000int
        + b[10] * 0x80000000000000000000int
        + b[11] * 0x8000000000000000000000int
        + b[12] * 0x800000000000000000000000int
        + b[13] * 0x80000000000000000000000000int
        + b[14] * 0x8000000000000000000000000000int
        + b[15] * 0x800000000000000000000000000000int
        + b[16] * 0x80000000000000000000000000000000int
        + b[17] * 0x8000000000000000000000000000000000int
        + b[18] * 0x800000000000000000000000000000000000int
        + b[19] * 0x80000000000000000000000000000000000000int
        + b[20] * 0x8000000000000000000000000000000000000000int
        + b[21] * 0x800000000000000000000000000000000000000000int
        + b[22] * 0x80000000000000000000000000000000000000000000int
        + b[23] * 0x8000000000000000000000000000000000000000000000int
        + b[24] * 0x800000000000000000000000000000000000000000000000int
        + b[25] * 0x80000000000000000000000000000000000000000000000000int
        + b[26] * 0x8000000000000000000000000000000000000000000000000000int
        + b[27] * 0x800000000000000000000000000000000000000000000000000000int
        + b[28] * 0x80000000000000000000000000000000000000000000000000000000int
        + b[29] * 0x8000000000000000000000000000000000000000000000000000000000int
        + b[30] * 0x800000000000000000000000000000000000000000000000000000000000int
        + b[31] * 0x80000000000000000000000000000000000000000000000000000000000000int
        + b[32] * 0x8000000000000000000000000000000000000000000000000000000000000000int
        + b[33] * 0x800000000000000000000000000000000000000000000000000000000000000000int
        + b[34] * 0x80000000000000000000000000000000000000000000000000000000000000000000int
        + b[35] * 0x8000000000000000000000000000000000000000000000000000000000000000000000int
        + b[36] * 0x800000000000000000000000000000000000000000000000000000000000000000000000int
        + b[37] * 0x80000000000000000000000000000000000000000000000000000000000000000000000000int
        + b[38] * 0x8000000000000000000000000000000000000000000000000000000000000000000000000000int
        + b[39] * 0x800000000000000000000000000000000000000000000000000000000000000000000000000000int
        + b[40] * 0x80000000000000000000000000000000000000000000000000000000000000000000000000000000int
        + b[41] * 0x8000000000000000000000000000000000000000000000000000000000000000000000000000000000int
        + b[42] * 0x800000000000000000000000000000000000000000000000000000000000000000000000000000000000int
        + b[43] * 0x80000000000000000000000000000000000000000000000000000000000000000000000000000000000000int
        + b[44] * 0x8000000000000000000000000000000000000000000000000000000000000000000000000000000000000000int
        + b[45] * 0x800000000000000000000000000000000000000000000000000000000000000000000000000000000000000000int
        + b[46] * 0x80000000000000000000000000000000000000000000000000000000000000000000000000000000000000000000int
        + b[47] * 0x8000000000000000000000000000000000000000000000000000000000000000000000000000000000000000000000int
        + b[48] * 0x800000000000000000000000000000000000000000000000000000000000000000000000000000000000000000000000int
        + b[49] * 0x80000000000000000000000000000000000000000000000000000000000000000000000000000000000000000000000000int
        + b[50] * 0x8000000000000000000000000000000000000000000000000000000000000000000000000000000000000000000000000000int
        + b[51] * 0x800000000000000000000000000000000000000000000000000000000000000000000000000000000000000000000000000000int
        + b[52] * 0x80000000000000000000000000000000000000000000000000000000000000000000000000000000000000000000000000000000int
        + b[53] * 0x8000000000000000000000000000000000000000000000000000000000000000000000000000000000000000000000000000000000int
        + b[54] * 0x800000000000000000000000000000000000000000000000000000000000000000000000000000000000000000000000000000000000int
        + b[55] * 0x80000000000000000000000000000000000000000000000000000000000000000000000000000000000000000000000000000000000000int;
    assert(bytes_value(b) == 2 * rest + b[0]);
    vstd::arithmetic::div_mod::lemma_mod_multiples_vanish(rest, b[0] as int, 2);
}

/// If `x1 + r * y1 == x2 + r * y2` with both `x` below `r`, the two sides
/// agree part by part.
proof fn lemma_radix_unique(x1: int, y1: int, x2: int, y2: int, r: int)
    requires
        r > 0,
        0 <= x1 < r,
        0 <= x2 < r,
        x1 + r * y1 == x2 + r * y2,
    ensures
        x1 == x2,
        y1 == y2,
{
    assert(y1 == y2) by (nonlinear_arith)
        requires
            r > 0,
            0 <= x1 < r,
            0 <= x2 < r,
            x1 + r * y1 == x2 + r * y2,
    ;
}

/// The bytes from `start + k` to the end of the seven-byte group at `start`,
/// as an integer.
pub open spec fn group_tail(b: Seq<u8>, start: int, k: int) -> int
    decreases 7 - k,
{
    if k >= 6 {
        b[start + 6] as int
    } else {
        b[start + k] + 0x100 * group_tail(b, start, k + 1)
    }
}

/// Two seven-byte groups that stand for the same integer hold the same
/// bytes.
proof fn lemma_group_injective(a: Seq<u8>, b: Seq<u8>, start: int)
    requires
        0 <= start,
        start + 7 <= 56,
        group_value(a, start) == group_value(b, start),
    ensures
        a[start] == b[start],
        a[start + 1] == b[start + 1],
        a[start + 2] == b[start + 2],
        a[start + 3] == b[start + 3],
        a[start + 4] == b[start + 4],
        a[start + 5] == b[start + 5],
        a[start + 6] == b[start + 6],
{
    reveal_with_fuel(group_tail, 8);
    assert(group_value(a, start) == group_tail(a, start, 0));
    assert(group_value(b, start) == group_tail(b, start, 0));
    lemma_radix_unique(a[start + 0] as int, group_tail(a, start, 1), b[start + 0] as int, group_tail(b, start, 1), 0x100);
    lemma_radix_unique(a[start + 1] as int, group_tail(a, start, 2), b[start + 1] as int, group_tail(b, start, 2), 0x100);
    lemma_radix_unique(a[start + 2] as int, group_tail(a, start, 3), b[start + 2] as int, group_tail(b, start, 3), 0x100);
    lemma_radix_unique(a[start + 3] as int, group_tail(a, start, 4), b[start + 3] as int, group_tail(b, start, 4), 0x100);
    lemma_radix_unique(a[start + 4] as int, group_tail(a, start, 5), b[start + 4] as int, group_tail(b, start, 5), 0x100);
    lemma_radix_unique(a[start + 5] as int, group_tail(a, start, 6), b[start + 5] as int, group_tail(b, start, 6), 0x100);
}

/// Bytes that hold, seven by seven, the integers of the limbs taken two by
/// two stand for the integer that the limbs stand for.
pub proof fn lemma_bytes_of_limbs(l: [u32; 16], r: Seq<u8>)
    requires
        l[0] + l[1] * 0x1000_0000 == group_value(r, 0),
        l[2] + l[3] * 0x1000_0000 == group_value(r, 7),
        l[4] + l[5] * 0x1000_0000 == group_value(r, 14),
        l[6] + l[7] * 0x1000_0000 == group_value(r, 21),
        l[8] + l[9] * 0x1000_0000 == group_value(r, 28),
        l[10] + l[11] * 0x1000_0000 == group_value(r, 35),
        l[12] + l[13] * 0x1000_0000 == group_value(r, 42),
        l[14] + l[15] * 0x1000_0000 == group_value(r, 49),
    ensures
        bytes_value(r) == limbs_value(l),
{
    reveal(limbs_value);
    reveal(bytes_value);
}

/// One limb of a subtraction of the modulus: `limb - modulus_limb - borrow`,
/// as a 28-bit limb and the borrow out of it.
fn sub_step(limb: u32, modulus_limb: u32, borrow: u32) -> (r: (u32, u32))
    requires
        limb <= 0x1000_000f,
        MASK - 1 <= modulus_limb <= MASK,
        borrow <= 1,
    ensures
        limb - modulus_limb - borrow == r.0 - 0x1000_0000 * r.1,
        r.0 <= MASK,
        r.1 <= 1,
{
    let (low, high) = split28(limb + 0x1000_0000 - modulus_limb - borrow);
    (low, 1 - high)
}

/// One limb of an addition: `limb + addend + carry`, as a 28-bit limb and
/// the carry out of it.
fn add_step(limb: u32, addend: u32, carry: u32) -> (r: (u32, u32))
    requires
        limb <= MASK,
        addend <= MASK,
        carry <= 1,
    ensures
        limb + addend + carry == r.0 + 0x1000_0000 * r.1,
        r.0 <= MASK,
        r.1 <= 1,
{
    split28(limb + addend + carry)
}

/// Subtracts the modulus from limbs that a carry round has left, limb by
/// limb, and returns the 28-bit limbs of the difference with the borrow out
/// of the top limb.
fn subtract_modulus(l: &[u32; 16]) -> (r: ([u32; 16], u32))
    requires
        forall|i: int| 0 <= i < 16 ==> #[trigger] l[i] <= 0x1000_000f,
    ensures
        limbs_value(r.0) - r.1 * 0x10000000000000000000000000000000000000000000000000000000000000000000000000000000000000000000000000000000000000000int == limbs_value(*l) - field_modulus(),
        forall|i: int| 0 <= i < 16 ==> #[trigger] r.0[i] <= MASK,
        r.1 <= 1,
{
    let (s0, b0) = sub_step(l[0], MASK, 0);
    let (s1, b1) = sub_step(l[1], MASK, b0);
    let (s2, b2) = sub_step(l[2], MASK, b1);
    let (s3, b3) = sub_step(l[3], MASK, b2);
    let (s4, b4) = sub_step(l[4], MASK, b3);
    let (s5, b5) = sub_step(l[5], MASK, b4);
    let (s6, b6) = sub_step(l[6], MASK, b5);
    let (s7, b7) = sub_step(l[7], MASK, b6);
    let (s8, b8) = sub_step(l[8], MASK - 1, b7);
    let (s9, b9) = sub_step(l[9], MASK, b8);
    let (s10, b10) = sub_step(l[10], MASK, b9);
    let (s11, b11) = sub_step(l[11], MASK, b10);
    let (s12, b12) = sub_step(l[12], MASK, b11);
    let (s13, b13) = sub_step(l[13], MASK, b12);
    let (s14, b14) = sub_step(l[14], MASK, b13);
    let (s15, b15) = sub_step(l[15], MASK, b14);
    let s = [s0, s1, s2, s3, s4, s5, s6, s7, s8, s9, s10, s11, s12, s13, s14, s15];
    proof {
        lemma_sub_chain(*l, s, [b0, b1, b2, b3, b4, b5, b6, b7, b8, b9, b10, b11, b12, b13, b14, b15]);
    }
    (s, b15)
}

/// Adds the modulus, where `borrow` is 1, to 28-bit limbs, limb by limb, and
/// returns the 28-bit limbs of the sum with the carry out of the top limb.
fn add_modulus_masked(s: &[u32; 16], borrow: u32) -> (r: ([u32; 16], u32))
    requires
        forall|i: int| 0 <= i < 16 ==> #[trigger] s[i] <= MASK,
        borrow <= 1,
    ensures
        limbs_value(r.0) + r.1 * 0x10000000000000000000000000000000000000000000000000000000000000000000000000000000000000000000000000000000000000000int == limbs_value(*s) + borrow * field_modulus(),
        forall|i: int| 0 <= i < 16 ==> #[trigger] r.0[i] <= MASK,
        r.1 <= 1,
{
    let m = borrow * 0x0fff_ffff;
    let m8 = borrow * 0x0fff_fffe;
    let (r0, c0) = add_step(s[0], m, 0);
    let (r1, c1) = add_step(s[1], m, c0);
    let (r2, c2) = add_step(s[2], m, c1);
    let (r3, c3) = add_step(s[3], m, c2);
    let (r4, c4) = add_step(s[4], m, c3);
    let (r5, c5) = add_step(s[5], m, c4);
    let (r6, c6) = add_step(s[6], m, c5);
    let (r7, c7) = add_step(s[7], m, c6);
    let (r8, c8) = add_step(s[8], m8, c7);
    let (r9, c9) = add_step(s[9], m, c8);
    let (r10, c10) = add_step(s[10], m, c9);
    let (r11, c11) = add_step(s[11], m, c10);
    let (r12, c12) = add_step(s[12], m, c11);
    let (r13, c13) = add_step(s[13], m, c12);
    let (r14, c14) = add_step(s[14], m, c13);
    let (r15, c15) = add_step(s[15], m, c14);
    let r = [r0, r1, r2, r3, r4, r5, r6, r7, r8, r9, r10, r11, r12, r13, r14, r15];
    proof {
        lemma_add_chain(*s, r, [c0, c1, c2, c3, c4, c5, c6, c7, c8, c9, c10, c11, c12, c13, c14, c15], borrow as int);
    }
    (r, c15)
}

/// The 56-bit integer that the seven bytes from `start` stand for.
fn load7(bytes: &[u8; 56], start: usize) -> (r: u64)
    requires
        start + 7 <= 56,
    ensures
        r == group_value(bytes@, start as int),
        r <= 0xff_ffff_ffff_ffff,
{
    let b0 = bytes[start];
    let b1 = bytes[start + 1];
    let b2 = bytes[start + 2];
    let b3 = bytes[start + 3];
    let b4 = bytes[start + 4];
    let b5 = bytes[start + 5];
    let b6 = bytes[start + 6];
    assert(((b0 as u64) | ((b1 as u64) << 8) | ((b2 as u64) << 16) | ((b3 as u64) << 24) | ((b4 as u64)
        << 32) | ((b5 as u64) << 40) | ((b6 as u64) << 48)) == b0 + b1 * 0x100 + b2 * 0x1_0000 + b3
        * 0x100_0000 + b4 * 0x1_0000_0000 + b5 * 0x100_0000_0000 + b6 * 0x1_0000_0000_0000)
        by (bit_vector);
    (b0 as u64) | ((b1 as u64) << 8) | ((b2 as u64) << 16) | ((b3 as u64) << 24) | ((b4 as u64) << 32)
        | ((b5 as u64) << 40) | ((b6 as u64) << 48)
}

/// Splits a 56-bit integer into two 28-bit limbs.
fn split56(x: u64) -> (r: (u32, u32))
    requires
        x <= 0xff_ffff_ffff_ffff,
    ensures
        x == r.0 + r.1 * 0x1000_0000,
        r.0 <= MASK,
        r.1 <= MASK,
{
    let (low, high) = split28_wide(x);
    (low, high as u32)
}

/// The seven bytes of a 56-bit integer, least significant first.
fn store7(x: u64) -> (r: [u8; 7])
    requires
        x <= 0xff_ffff_ffff_ffff,
    ensures
        x == r[0] + r[1] * 0x100 + r[2] * 0x1_0000 + r[3] * 0x100_0000 + r[4] * 0x1_0000_0000 + r[5]
            * 0x100_0000_0000 + r[6] * 0x1_0000_0000_0000,
{
    assert(x <= 0xff_ffff_ffff_ffff ==> x == (x as u8) + ((x >> 8) as u8) * 0x100 + ((x >> 16) as u8)
        * 0x1_0000 + ((x >> 24) as u8) * 0x100_0000 + ((x >> 32) as u8) * 0x1_0000_0000 + ((x >> 40) as u8)
        * 0x100_0000_0000 + ((x >> 48) as u8) * 0x1_0000_0000_0000) by (bit_vector);
    [
        x as u8,
        (x >> 8) as u8,
        (x >> 16) as u8,
        (x >> 24) as u8,
        (x >> 32) as u8,
        (x >> 40) as u8,
        (x >> 48) as u8,
    ]
}

/// Whether a word is zero, found without a comparison of the word itself.
pub fn word_is_zero(word: u32) -> (r: bool)
    ensures
        r == (word == 0),
{
    word.wrapping_sub(1) == 0xffff_ffff
}

/// The field element that a word stands for.
pub fn from_u32(a: u32) -> (r: FieldElement28)
    ensures
        r.0[0] == a,
        forall|i: int| 1 <= i < 16 ==> r.0[i] == 0,
        r.value() == a,
{
    proof {
        reveal(limbs_value);
    }
    FieldElement28([a, 0, 0, 0, 0, 0, 0, 0, 0, 0, 0, 0, 0, 0, 0, 0])
}

impl FieldElement28 {
    /// The residue modulo `p` that the element stands for.
    pub open spec fn value(&self) -> int {
        limbs_value(self.0) % field_modulus()
    }

    /// Whether every limb is small enough for limb-wise addition and
    /// subtraction of two such elements to stay within a word.
    pub open spec fn is_weak(&self) -> bool {
        forall|i: int| 0 <= i < 16 ==> #[trigger] self.0[i] <= 0x1010_0000
    }

    /// Whether the limbs are the canonical form of the residue: each limb
    /// within 28 bits and the integer they stand for below the modulus.
    pub open spec fn is_canonical(&self) -> bool {
        &&& forall|i: int| 0 <= i < 16 ==> #[trigger] self.0[i] <= MASK
        &&& limbs_value(self.0) < field_modulus()
    }

    /// The additive identity.
    pub fn zero() -> (r: FieldElement28)
        ensures
            r == FieldElement28([0, 0, 0, 0, 0, 0, 0, 0, 0, 0, 0, 0, 0, 0, 0, 0]),
            forall|i: int| 0 <= i < 16 ==> r.0[i] == 0,
            r.value() == 0,
            r.is_weak(),
    {
        proof {
            reveal(limbs_value);
        }
        FieldElement28([0, 0, 0, 0, 0, 0, 0, 0, 0, 0, 0, 0, 0, 0, 0, 0])
    }

    /// The multiplicative identity.
    pub fn one() -> (r: FieldElement28)
        ensures
            r == FieldElement28([1, 0, 0, 0, 0, 0, 0, 0, 0, 0, 0, 0, 0, 0, 0, 0]),
            r.0[0] == 1,
            forall|i: int| 1 <= i < 16 ==> r.0[i] == 0,
            r.value() == 1,
            r.is_weak(),
    {
        proof {
            reveal(limbs_value);
        }
        FieldElement28([1, 0, 0, 0, 0, 0, 0, 0, 0, 0, 0, 0, 0, 0, 0, 0])
    }

    /// The residue `p - 1`.
    pub fn minus_one() -> (r: FieldElement28)
        ensures
            r.value() == field_modulus() - 1,
            r.is_canonical(),
            r.is_weak(),
    {
        proof {
            reveal(limbs_value);
        }
        FieldElement28(
            [
                268435454,
                268435455,
                268435455,
                268435455,
                268435455,
                268435455,
                268435455,
                268435455,
                268435454,
                268435455,
                268435455,
                268435455,
                268435455,
                268435455,
                268435455,
                268435455,
            ],
        )
    }

    /// The element with the given limbs.
    pub fn from_raw_slice(slice: [u32; 16]) -> (r: FieldElement28)
        ensures
            r.0 == slice,
    {
        FieldElement28(slice)
    }

    /// Whether the element is the residue zero.
    pub fn is_zero(&self) -> (r: bool)
        ensures
            r == (self.value() == 0),
    {
        self.equals(&FieldElement28::zero())
    }

    /// Whether the canonical form of the element is odd: the sign
    /// convention of the encodings.
    pub fn is_negative(&self) -> (r: bool)
        ensures
            r == (self.value() % 2 == 1),
    {
        let bytes = self.to_bytes();
        let low = bytes[0];
        proof {
            lemma_bytes_parity(bytes@);
        }
        assert(low & 1 == low % 2) by (bit_vector);
        (low & 1) == 1
    }

    /// Whether two elements are the same residue, found by comparing their
    /// canonical encodings in constant time.
    pub fn equals(&self, rhs: &FieldElement28) -> (r: bool)
        ensures
            r == (self.value() == rhs.value()),
    {
        let a = self.to_bytes();
        let b = rhs.to_bytes();
        proof {
            if self.value() == rhs.value() {
                lemma_bytes_value_injective(a@, b@);
            }
        }
        bytes_equal(&a, &b)
    }

    /// The element read from 56 little-endian bytes. Every byte string is
    /// read; one that stands for an integer of `p` or more is read as its
    /// residue.
    pub fn from_bytes(bytes: &[u8; 56]) -> (r: FieldElement28)
        ensures
            limbs_value(r.0) == bytes_value(bytes@),
            forall|i: int| 0 <= i < 16 ==> #[trigger] r.0[i] <= MASK,
            r.is_weak(),
    {
        let (l0, l1) = split56(load7(bytes, 0));
        let (l2, l3) = split56(load7(bytes, 7));
        let (l4, l5) = split56(load7(bytes, 14));
        let (l6, l7) = split56(load7(bytes, 21));
        let (l8, l9) = split56(load7(bytes, 28));
        let (l10, l11) = split56(load7(bytes, 35));
        let (l12, l13) = split56(load7(bytes, 42));
        let (l14, l15) = split56(load7(bytes, 49));
        proof {
            lemma_bytes_of_limbs([l0, l1, l2, l3, l4, l5, l6, l7, l8, l9, l10, l11, l12, l13, l14, l15], bytes@);
        }
        FieldElement28([l0, l1, l2, l3, l4, l5, l6, l7, l8, l9, l10, l11, l12, l13, l14, l15])
    }

    /// The canonical encoding of the element: the 56 little-endian bytes of
    /// its residue.
    pub fn to_bytes(&self) -> (r: [u8; 56])
        ensures
            bytes_value(r@) == self.value(),
    {
        let mut limbs = *self;
        limbs.strong_reduce();
        let l = limbs.0;
        let g0 = store7(l[0] as u64 + ((l[1] as u64) * 0x1000_0000));
        let g1 = store7(l[2] as u64 + ((l[3] as u64) * 0x1000_0000));
        let g2 = store7(l[4] as u64 + ((l[5] as u64) * 0x1000_0000));
        let g3 = store7(l[6] as u64 + ((l[7] as u64) * 0x1000_0000));
        let g4 = store7(l[8] as u64 + ((l[9] as u64) * 0x1000_0000));
        let g5 = store7(l[10] as u64 + ((l[11] as u64) * 0x1000_0000));
        let g6 = store7(l[12] as u64 + ((l[13] as u64) * 0x1000_0000));
        let g7 = store7(l[14] as u64 + ((l[15] as u64) * 0x1000_0000));
        let r = [
            g0[0], g0[1], g0[2], g0[3], g0[4], g0[5], g0[6],
            g1[0], g1[1], g1[2], g1[3], g1[4], g1[5], g1[6],
            g2[0], g2[1], g2[2], g2[3], g2[4], g2[5], g2[6],
            g3[0], g3[1], g3[2], g3[3], g3[4], g3[5], g3[6],
            g4[0], g4[1], g4[2], g4[3], g4[4], g4[5], g4[6],
            g5[0], g5[1], g5[2], g5[3], g5[4], g5[5], g5[6],
            g6[0], g6[1], g6[2], g6[3], g6[4], g6[5], g6[6],
            g7[0], g7[1], g7[2], g7[3], g7[4], g7[5], g7[6],
        ];
        proof {
            lemma_bytes_of_limbs(l, r@);
        }
        r
    }

    /// Adds `b` multiples of the modulus to the limbs, each limb wrapping
    /// at a word. Where no limb wraps, this leaves the residue as it is and
    /// makes room for a limb-wise subtraction.
    pub fn bias(a: &FieldElement28, b: u32) -> (r: FieldElement28)
        requires
            b <= 16,
        ensures
            r.0[8] == wrapped(a.0[8] + b * (MASK - 1)),
            forall|i: int| 0 <= i < 16 && i != 8 ==> #[trigger] r.0[i] == wrapped(a.0[i] + b * MASK),
            (forall|i: int| 0 <= i < 16 ==> #[trigger] a.0[i] + b * MASK <= u32::MAX) ==> limbs_value(r.0)
                == limbs_value(a.0) + b * field_modulus(),
    {
        let co1 = b * MASK;
        let co2 = co1 - b;
        let l = a.0;
        let r = FieldElement28(
            [
                l[0].wrapping_add(co1),
                l[1].wrapping_add(co1),
                l[2].wrapping_add(co1),
                l[3].wrapping_add(co1),
                l[4].wrapping_add(co1),
                l[5].wrapping_add(co1),
                l[6].wrapping_add(co1),
                l[7].wrapping_add(co1),
                l[8].wrapping_add(co2),
                l[9].wrapping_add(co1),
                l[10].wrapping_add(co1),
                l[11].wrapping_add(co1),
                l[12].wrapping_add(co1),
                l[13].wrapping_add(co1),
                l[14].wrapping_add(co1),
                l[15].wrapping_add(co1),
            ],
        );
        proof {
            if forall|i: int| 0 <= i < 16 ==> #[trigger] a.0[i] + b * MASK <= u32::MAX {
                assert(a.0[0] + b * MASK <= u32::MAX);
                assert(a.0[1] + b * MASK <= u32::MAX);
                assert(a.0[2] + b * MASK <= u32::MAX);
                assert(a.0[3] + b * MASK <= u32::MAX);
                assert(a.0[4] + b * MASK <= u32::MAX);
                assert(a.0[5] + b * MASK <= u32::MAX);
                assert(a.0[6] + b * MASK <= u32::MAX);
                assert(a.0[7] + b * MASK <= u32::MAX);
                assert(a.0[8] + b * MASK <= u32::MAX);
                assert(a.0[9] + b * MASK <= u32::MAX);
                assert(a.0[10] + b * MASK <= u32::MAX);
                assert(a.0[11] + b * MASK <= u32::MAX);
                assert(a.0[12] + b * MASK <= u32::MAX);
                assert(a.0[13] + b * MASK <= u32::MAX);
                assert(a.0[14] + b * MASK <= u32::MAX);
                assert(a.0[15] + b * MASK <= u32::MAX);
                lemma_bias(a.0, r.0, b as int);
            }
        }
        r
    }

    /// Carries the excess of each limb over 28 bits into the next limb, and
    /// that of the top limb, by `2^448 = 2^224 + 1`, into limbs 0 and 8.
    pub fn weak_reduce(&mut self)
        ensures
            final(self).value() == old(self).value(),
            final(self).is_weak(),
            forall|i: int| 0 <= i < 16 ==> #[trigger] final(self).0[i] <= 0x1000_000f,
    {
        let l = self.0;
        let (lo0, hi0) = split28(l[0]);
        let (lo1, hi1) = split28(l[1]);
        let (lo2, hi2) = split28(l[2]);
        let (lo3, hi3) = split28(l[3]);
        let (lo4, hi4) = split28(l[4]);
        let (lo5, hi5) = split28(l[5]);
        let (lo6, hi6) = split28(l[6]);
        let (lo7, hi7) = split28(l[7]);
        let (lo9, hi9) = split28(l[9]);
        let (lo10, hi10) = split28(l[10]);
        let (lo11, hi11) = split28(l[11]);
        let (lo12, hi12) = split28(l[12]);
        let (lo13, hi13) = split28(l[13]);
        let (lo14, hi14) = split28(l[14]);
        let (lo15, hi15) = split28(l[15]);
        let (lo8, hi8) = split28_wide(l[8] as u64 + hi15 as u64);
        let hi8 = hi8 as u32;
        self.0 = [
            lo0 + hi15,
            lo1 + hi0,
            lo2 + hi1,
            lo3 + hi2,
            lo4 + hi3,
            lo5 + hi4,
            lo6 + hi5,
            lo7 + hi6,
            lo8 + hi7,
            lo9 + hi8,
            lo10 + hi9,
            lo11 + hi10,
            lo12 + hi11,
            lo13 + hi12,
            lo14 + hi13,
            lo15 + hi14,
        ];
        proof {
            let s8 = (l[8] % 0x1000_0000) as u32;
            let t8 = (l[8] / 0x1000_0000) as u32;
            let lo = [lo0, lo1, lo2, lo3, lo4, lo5, lo6, lo7, s8, lo9, lo10, lo11, lo12, lo13, lo14, lo15];
            let hi = [hi0, hi1, hi2, hi3, hi4, hi5, hi6, hi7, t8, hi9, hi10, hi11, hi12, hi13, hi14, hi15];
            lemma_carry_round(l, self.0, lo, hi, lo8 as int, hi8 as int);
        }
    }

    /// Reduces the element to its canonical form: limbs of 28 bits that
    /// stand for the residue itself.
    pub fn strong_reduce(&mut self)
        ensures
            final(self).is_canonical(),
            limbs_value(final(self).0) == old(self).value(),
    {
        self.weak_reduce();
        let l = self.0;
        // The limbs now stand for an integer below twice the modulus. The
        // borrow that the subtraction leaves tells whether it was below the
        // modulus itself, and the modulus is then added back.
        let (lowered, borrow) = subtract_modulus(&l);
        let (restored, carry) = add_modulus_masked(&lowered, borrow);
        self.0 = restored;
        proof {
            lemma_weak_bound(l);
            lemma_limbs_bound(lowered);
            lemma_limbs_bound(restored);
            let top = 0x10000000000000000000000000000000000000000000000000000000000000000000000000000000000000000000000000000000000000000int;
            let before = limbs_value(l);
            let after = limbs_value(restored);
            assert(after + carry * top == before - field_modulus() + borrow * top + borrow
                * field_modulus());
            assert(carry == borrow);
            lemma_residue_unique(before, after, 1 - borrow);
        }
    }

    /// The limb-wise sum of two elements, with no carry.
    pub fn add_no_reduce(&self, rhs: &FieldElement28) -> (r: FieldElement28)
        requires
            forall|i: int| 0 <= i < 16 ==> #[trigger] self.0[i] + rhs.0[i] <= u32::MAX,
        ensures
            forall|i: int| 0 <= i < 16 ==> #[trigger] r.0[i] == self.0[i] + rhs.0[i],
            limbs_value(r.0) == limbs_value(self.0) + limbs_value(rhs.0),
    {
        let a = self.0;
        let b = rhs.0;
        let r = FieldElement28(
            [
                a[0] + b[0],
                a[1] + b[1],
                a[2] + b[2],
                a[3] + b[3],
                a[4] + b[4],
                a[5] + b[5],
                a[6] + b[6],
                a[7] + b[7],
                a[8] + b[8],
                a[9] + b[9],
                a[10] + b[10],
                a[11] + b[11],
                a[12] + b[12],
                a[13] + b[13],
                a[14] + b[14],
                a[15] + b[15],
            ],
        );
        proof {
            lemma_limbs_sum(a, b, r.0);
        }
        r
    }

    /// The limb-wise difference of two elements, each limb wrapping at a
    /// word. Where no limb of `rhs` exceeds that of the element, the limbs
    /// stand for the difference of the integers.
    pub fn sub_no_reduce(&self, rhs: &FieldElement28) -> (r: FieldElement28)
        ensures
            forall|i: int| 0 <= i < 16 ==> #[trigger] r.0[i] == wrapped(self.0[i] - rhs.0[i]),
            (forall|i: int| 0 <= i < 16 ==> #[trigger] self.0[i] >= rhs.0[i]) ==> limbs_value(r.0)
                == limbs_value(self.0) - limbs_value(rhs.0),
    {
        let a = self.0;
        let b = rhs.0;
        let r = FieldElement28(
            [
                a[0].wrapping_sub(b[0]),
                a[1].wrapping_sub(b[1]),
                a[2].wrapping_sub(b[2]),
                a[3].wrapping_sub(b[3]),
                a[4].wrapping_sub(b[4]),
                a[5].wrapping_sub(b[5]),
                a[6].wrapping_sub(b[6]),
                a[7].wrapping_sub(b[7]),
                a[8].wrapping_sub(b[8]),
                a[9].wrapping_sub(b[9]),
                a[10].wrapping_sub(b[10]),
                a[11].wrapping_sub(b[11]),
                a[12].wrapping_sub(b[12]),
                a[13].wrapping_sub(b[13]),
                a[14].wrapping_sub(b[14]),
                a[15].wrapping_sub(b[15]),
            ],
        );
        proof {
            if forall|i: int| 0 <= i < 16 ==> #[trigger] self.0[i] >= rhs.0[i] {
                assert(self.0[0] >= rhs.0[0]);
                assert(self.0[1] >= rhs.0[1]);
                assert(self.0[2] >= rhs.0[2]);
                assert(self.0[3] >= rhs.0[3]);
                assert(self.0[4] >= rhs.0[4]);
                assert(self.0[5] >= rhs.0[5]);
                assert(self.0[6] >= rhs.0[6]);
                assert(self.0[7] >= rhs.0[7]);
                assert(self.0[8] >= rhs.0[8]);
                assert(self.0[9] >= rhs.0[9]);
                assert(self.0[10] >= rhs.0[10]);
                assert(self.0[11] >= rhs.0[11]);
                assert(self.0[12] >= rhs.0[12]);
                assert(self.0[13] >= rhs.0[13]);
                assert(self.0[14] >= rhs.0[14]);
                assert(self.0[15] >= rhs.0[15]);
                lemma_limbs_difference(a, b, r.0);
            }
        }
        r
    }

    /// The negative of the element.
    pub fn negate(&self) -> (r: FieldElement28)
        requires
            self.is_weak(),
        ensures
            r.value() == field_neg(self.value()),
            r.is_weak(),
    {
        FieldElement28::zero() - *self
    }

    /// `b` where `choice` holds and `a` where it does not, chosen limb by
    /// limb without a branch.
    pub fn conditional_select(a: &FieldElement28, b: &FieldElement28, choice: bool) -> (r:
        FieldElement28)
        ensures
            r.0 == if choice { b.0 } else { a.0 },
    {
        let x = a.0;
        let y = b.0;
        let r = FieldElement28(
            [
                select_word(x[0], y[0], choice),
                select_word(x[1], y[1], choice),
                select_word(x[2], y[2], choice),
                select_word(x[3], y[3], choice),
                select_word(x[4], y[4], choice),
                select_word(x[5], y[5], choice),
                select_word(x[6], y[6], choice),
                select_word(x[7], y[7], choice),
                select_word(x[8], y[8], choice),
                select_word(x[9], y[9], choice),
                select_word(x[10], y[10], choice),
                select_word(x[11], y[11], choice),
                select_word(x[12], y[12], choice),
                select_word(x[13], y[13], choice),
                select_word(x[14], y[14], choice),
                select_word(x[15], y[15], choice),
            ],
        );
        assert(r.0 =~= if choice { b.0 } else { a.0 });
        r
    }

    /// Replaces the element by `other` where `choice` holds.
    pub fn conditional_assign(&mut self, other: &FieldElement28, choice: bool)
        ensures
            final(self).0 == if choice { other.0 } else { old(self).0 },
    {
        *self = FieldElement28::conditional_select(self, other, choice);
    }

    /// Exchanges the two elements where `choice` holds.
    pub fn conditional_swap(a: &mut FieldElement28, b: &mut FieldElement28, choice: bool)
        ensures
            final(a).0 == if choice { old(b).0 } else { old(a).0 },
            final(b).0 == if choice { old(a).0 } else { old(b).0 },
    {
        let ghost first = a.0;
        let ghost second = b.0;
        for i in 0..16
            invariant
                forall|j: int|
                    0 <= j < i ==> a.0[j] == (if choice { second[j] } else { first[j] }) && b.0[j] == (if choice {
                        first[j]
                    } else {
                        second[j]
                    }),
                forall|j: int| i <= j < 16 ==> a.0[j] == first[j] && b.0[j] == second[j],
        {
            let mut x = a.0[i];
            let mut y = b.0[i];
            swap_words(&mut x, &mut y, choice);
            a.0[i] = x;
            b.0[i] = y;
        }
        assert(a.0 =~= if choice { second } else { first });
        assert(b.0 =~= if choice { first } else { second });
    }

    /// Replaces the element by its negative where `choice` holds.
    pub fn conditional_negate(&mut self, choice: bool)
        requires
            old(self).is_weak(),
        ensures
            final(self).is_weak(),
            final(self).value() == if choice { field_neg(old(self).value()) } else { old(self).value() },
    {
        let negated = self.negate();
        self.conditional_assign(&negated, choice);
    }
}

/// The integer that 56 bytes stand for depends on those bytes alone.
pub proof fn lemma_bytes_value_prefix(a: Seq<u8>, b: Seq<u8>)
    requires
        forall|i: int| 0 <= i < 56 ==> a[i] == b[i],
    ensures
        bytes_value(a) == bytes_value(b),
{
    reveal(bytes_value);
}

/// A byte string stands for an integer below `2^448`.
pub proof fn lemma_bytes_value_bound(a: Seq<u8>)
    ensures
        0 <= bytes_value(a) < 0x10000000000000000000000000000000000000000000000000000000000000000000000000000000000000000000000000000000000000000int,
{
    reveal(bytes_value);
}

/// Two byte strings that stand for the same integer are the same.
pub proof fn lemma_bytes_value_injective(a: Seq<u8>, b: Seq<u8>)
    requires
        a.len() == 56,
        b.len() == 56,
        bytes_value(a) == bytes_value(b),
    ensures
        a == b,
{
    reveal(bytes_value);
    let r = 0x100_0000_0000_0000int;
    let ta7 = group_value(a, 49);
    let tb7 = group_value(b, 49);
    let ta6 = group_value(a, 42) + r * ta7;
    let tb6 = group_value(b, 42) + r * tb7;
    let ta5 = group_value(a, 35) + r * ta6;
    let tb5 = group_value(b, 35) + r * tb6;
    let ta4 = group_value(a, 28) + r * ta5;
    let tb4 = group_value(b, 28) + r * tb5;
    let ta3 = group_value(a, 21) + r * ta4;
    let tb3 = group_value(b, 21) + r * tb4;
    let ta2 = group_value(a, 14) + r * ta3;
    let tb2 = group_value(b, 14) + r * tb3;
    let ta1 = group_value(a, 7) + r * ta2;
    let tb1 = group_value(b, 7) + r * tb2;
    assert(bytes_value(a) == group_value(a, 0) + r * ta1);
    assert(bytes_value(b) == group_value(b, 0) + r * tb1);
    lemma_radix_unique(group_value(a, 0), ta1, group_value(b, 0), tb1, r);
    lemma_radix_unique(group_value(a, 7), ta2, group_value(b, 7), tb2, r);
    lemma_radix_unique(group_value(a, 14), ta3, group_value(b, 14), tb3, r);
    lemma_radix_unique(group_value(a, 21), ta4, group_value(b, 21), tb4, r);
    lemma_radix_unique(group_value(a, 28), ta5, group_value(b, 28), tb5, r);
    lemma_radix_unique(group_value(a, 35), ta6, group_value(b, 35), tb6, r);
    lemma_radix_unique(group_value(a, 42), ta7, group_value(b, 42), tb7, r);
    lemma_group_injective(a, b, 0);
    lemma_group_injective(a, b, 7);
    lemma_group_injective(a, b, 14);
    lemma_group_injective(a, b, 21);
    lemma_group_injective(a, b, 28);
    lemma_group_injective(a, b, 35);
    lemma_group_injective(a, b, 42);
    lemma_group_injective(a, b, 49);
    assert(a =~= b);
}

impl core::ops::Add<FieldElement28> for FieldElement28 {
    type Output = FieldElement28;

    /// The sum of two elements.
    fn add(self, rhs: FieldElement28) -> (r: FieldElement28)
        ensures
            r.value() == field_add(self.value(), rhs.value()),
            r.is_weak(),
    {
        let mut sum = self.add_no_reduce(&rhs);
        sum.weak_reduce();
        proof {
            vstd::arithmetic::div_mod::lemma_add_mod_noop(
                limbs_value(self.0),
                limbs_value(rhs.0),
                field_modulus(),
            );
        }
        sum
    }
}

impl vstd::std_specs::ops::AddSpecImpl<FieldElement28> for FieldElement28 {
    open spec fn obeys_add_spec() -> bool {
        false
    }

    open spec fn add_req(self, rhs: FieldElement28) -> bool {
        self.is_weak() && rhs.is_weak()
    }

    open spec fn add_spec(self, rhs: FieldElement28) -> FieldElement28 {
        arbitrary()
    }
}

impl core::ops::Sub<FieldElement28> for FieldElement28 {
    type Output = FieldElement28;

    /// The difference of two elements.
    fn sub(self, rhs: FieldElement28) -> (r: FieldElement28)
        ensures
            r.value() == field_sub(self.value(), rhs.value()),
            r.is_weak(),
    {
        let biased = FieldElement28::bias(&self, 2);
        let mut difference = biased.sub_no_reduce(&rhs);
        difference.weak_reduce();
        proof {
            let a = limbs_value(self.0);
            let b = limbs_value(rhs.0);
            vstd::arithmetic::div_mod::lemma_mod_multiples_vanish(2, a - b, field_modulus());
            vstd::arithmetic::div_mod::lemma_sub_mod_noop(a, b, field_modulus());
        }
        difference
    }
}

impl vstd::std_specs::ops::SubSpecImpl<FieldElement28> for FieldElement28 {
    open spec fn obeys_sub_spec() -> bool {
        false
    }

    open spec fn sub_req(self, rhs: FieldElement28) -> bool {
        self.is_weak() && rhs.is_weak()
    }

    open spec fn sub_spec(self, rhs: FieldElement28) -> FieldElement28 {
        arbitrary()
    }
}

impl PartialEq for FieldElement28 {
    /// Whether two elements are the same residue.
    fn eq(&self, other: &FieldElement28) -> (r: bool) {
        self.equals(other)
    }
}

impl vstd::std_specs::cmp::PartialEqSpecImpl for FieldElement28 {
    open spec fn obeys_eq_spec() -> bool {
        true
    }

    open spec fn eq_spec(&self, other: &FieldElement28) -> bool {
        self.value() == other.value()
    }
}

impl Eq for FieldElement28 {

}

} // verus!
