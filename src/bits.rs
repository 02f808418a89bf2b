//! The outside pieces the board is built from: `bitvec`'s bit vector for cell
//! storage and `rand` for random fills.

use vstd::prelude::*;
use bitvec::order::Lsb0;
use bitvec::vec::BitVec;

verus! {

/// One row of cells, stored in a `bitvec` bit vector. Its contents are
/// known to the proofs only through `bits_of`.
#[verifier::external_body]
pub struct BitRow {
    bits: BitVec<usize, Lsb0>,
}

/// The bits that a row holds, in index order.
pub uninterp spec fn bits_of(v: BitRow) -> Seq<bool>;

/// The largest length a bit vector can reach before `push` panics.
pub open spec fn max_bits() -> int {
    usize::MAX as int / 8
}

/// Relies on `BitVec::new`: the new vector is empty.
#[verifier::external_body]
pub(crate) fn bits_new() -> (r: BitRow)
    ensures
        bits_of(r) == Seq::<bool>::empty(),
{
    BitRow { bits: BitVec::new() }
}

/// Relies on `BitVec::push`: the bit is appended at the end; it panics only
/// when the length would pass `usize::MAX >> 3`.
#[verifier::external_body]
pub(crate) fn bits_push(v: &mut BitRow, b: bool)
    requires
        bits_of(*old(v)).len() + 1 <= max_bits(),
    ensures
        bits_of(*final(v)) == bits_of(*old(v)).push(b),
{
    v.bits.push(b);
}

/// Relies on `BitVec::len`: the number of bits held.
#[verifier::external_body]
pub(crate) fn bits_len(v: &BitRow) -> (r: usize)
    ensures
        r == bits_of(*v).len(),
{
    v.bits.len()
}

/// Relies on indexing a `BitSlice` by position: the bit at `i`; it panics
/// when `i` is out of bounds.
#[verifier::external_body]
pub(crate) fn bits_get(v: &BitRow, i: usize) -> (r: bool)
    requires
        i < bits_of(*v).len(),
    ensures
        r == bits_of(*v)[i as int],
{
    v.bits[i]
}

/// Relies on `BitSlice::set`: the bit at `i` is overwritten, the others kept;
/// it panics when `i` is out of bounds.
#[verifier::external_body]
pub(crate) fn bits_set(v: &mut BitRow, i: usize, b: bool)
    requires
        i < bits_of(*old(v)).len(),
    ensures
        bits_of(*final(v)) == bits_of(*old(v)).update(i as int, b),
{
    v.bits.set(i, b);
}

/// Relies on `rand::random::<bool>`: a bit drawn from the thread-local
/// generator. Nothing is known of its value.
#[verifier::external_body]
pub(crate) fn random_bit() -> (r: bool) {
    rand::random::<bool>()
}

} // verus!
