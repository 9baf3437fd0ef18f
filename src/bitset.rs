//! The cell buffer: a `fixedbitset::FixedBitSet`, seen through the sequence of
//! bits that it holds.

use vstd::prelude::*;

verus! {

#[verifier::external_type_specification]
#[verifier::external_body]
pub struct ExFixedBitSet(fixedbitset::FixedBitSet);

/// The bits that a set holds, in order; its length is the set's length in bits.
pub uninterp spec fn bits_of(b: fixedbitset::FixedBitSet) -> Seq<bool>;

/// Relies on `FixedBitSet::with_capacity`: `n` bits, all clear.
#[verifier::external_body]
pub(crate) fn bits_with_len(n: usize) -> (r: fixedbitset::FixedBitSet)
    ensures
        bits_of(r) == Seq::new(n as nat, |i: int| false),
{
    fixedbitset::FixedBitSet::with_capacity(n)
}

/// Relies on `FixedBitSet::len`: the length in bits.
#[verifier::external_body]
pub(crate) fn bits_len(b: &fixedbitset::FixedBitSet) -> (r: usize)
    ensures
        r as nat == bits_of(*b).len(),
{
    b.len()
}

/// Relies on `FixedBitSet`'s `Index<usize>`: the bit at `i`.
#[verifier::external_body]
pub(crate) fn bit_at(b: &fixedbitset::FixedBitSet, i: usize) -> (r: bool)
    requires
        i < bits_of(*b).len(),
    ensures
        r == bits_of(*b)[i as int],
{
    b[i]
}

/// Relies on `FixedBitSet::set`: changes the bit at `i` alone; it panics when
/// `i` is not below the length.
#[verifier::external_body]
pub(crate) fn set_bit(b: &mut fixedbitset::FixedBitSet, i: usize, v: bool)
    requires
        i < bits_of(*old(b)).len(),
    ensures
        bits_of(*final(b)) == bits_of(*old(b)).update(i as int, v),
{
    b.set(i, v)
}

/// Relies on `FixedBitSet`'s `Clone`: a copy with the same bits.
#[verifier::external_body]
pub(crate) fn bits_copy(b: &fixedbitset::FixedBitSet) -> (r: fixedbitset::FixedBitSet)
    ensures
        bits_of(r) == bits_of(*b),
{
    b.clone()
}

} // verus!
