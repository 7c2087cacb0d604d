//! Probability values as IEEE 754 double bit patterns.
//!
//! The extraction pipeline never computes with the probability values, it
//! only needs to know which entries are finite and which are invalid.
//! A value is therefore carried as the `u64` bit pattern of the double it
//! came from: an exponent field of all ones marks a non-finite value.
//! Non-finite entries are normalized to one canonical quiet-NaN pattern,
//! so that later trimming treats every kind of invalid data alike.

use vstd::prelude::*;

verus! {

/// Canonical quiet NaN bit pattern used as the marker for invalid entries.
pub const NAN_BITS: u64 = 0x7FF8_0000_0000_0000;

/// A bit pattern encodes a finite double iff its exponent field
/// (bits 52..63) is not all ones.
pub open spec fn finite_bits(b: u64) -> bool {
    (b >> 52) & 0x7FF != 0x7FF
}

/// The canonical invalid marker is itself non-finite.
pub proof fn lemma_nan_bits_not_finite()
    ensures
        !finite_bits(NAN_BITS),
{
    assert((0x7FF8_0000_0000_0000u64 >> 52) & 0x7FF == 0x7FF) by (bit_vector);
}

/// Runtime check matching `finite_bits`.
pub fn is_finite_bits(b: u64) -> (r: bool)
    ensures
        r == finite_bits(b),
{
    (b >> 52) & 0x7FF != 0x7FF
}

/// True iff every non-finite entry of `s` is the canonical marker.
pub open spec fn normalized(s: Seq<u64>) -> bool {
    forall|i: int| 0 <= i < s.len() && !finite_bits(s[i]) ==> s[i] == NAN_BITS
}

/// Replaces every non-finite entry by the canonical invalid marker,
/// leaving finite entries untouched.
pub fn normalize_values(v: &mut Vec<u64>)
    ensures
        final(v)@.len() == old(v)@.len(),
        forall|i: int|
            0 <= i < old(v)@.len() ==> final(v)@[i] == (if finite_bits(old(v)@[i]) {
                old(v)@[i]
            } else {
                NAN_BITS
            }),
        normalized(final(v)@),
{
    let n = v.len();
    let mut i: usize = 0;
    while i < n
        invariant
            n == old(v)@.len(),
            v@.len() == n,
            i <= n,
            forall|j: int|
                0 <= j < i ==> v@[j] == (if finite_bits(old(v)@[j]) {
                    old(v)@[j]
                } else {
                    NAN_BITS
                }),
            forall|j: int| i <= j < n ==> v@[j] == old(v)@[j],
        decreases n - i,
    {
        if !is_finite_bits(v[i]) {
            v.set(i, NAN_BITS);
        }
        i += 1;
    }
}

} // verus!
