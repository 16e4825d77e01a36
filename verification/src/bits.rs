//! The packed bit grid backing the maze's display bitmap.
//!
//! The bits live in a `bitvec` vector, held opaquely; the library sees
//! the contents only through `bits_of`, a sequence of booleans, and the
//! four small wrappers below, whose contracts state what the `bitvec`
//! sources show.

use vstd::prelude::*;

verus! {

/// A fixed-size grid of bits, packed by the `bitvec` crate.
#[verifier::external_body]
pub struct BitGrid {
    bits: bitvec::vec::BitVec<usize, bitvec::order::Lsb0>,
}

/// The bits held by the grid, in index order.
pub uninterp spec fn bits_of(v: BitGrid) -> Seq<bool>;

/// Relies on `BitVec::repeat`: a vector of `len` copies of `bit`.
#[verifier::external_body]
pub fn bits_repeat(bit: bool, len: usize) -> (r: BitGrid)
    ensures
        bits_of(r).len() == len,
        forall|i: int| 0 <= i < len ==> bits_of(r)[i] == bit,
{
    BitGrid { bits: bitvec::vec::BitVec::repeat(bit, len) }
}

/// Relies on `BitSlice::set`: writes the one addressed bit and no other;
/// it panics only out of bounds, which the precondition rules out.
#[verifier::external_body]
pub fn bits_set(v: &mut BitGrid, i: usize, b: bool)
    requires
        i < bits_of(*old(v)).len(),
    ensures
        bits_of(*final(v)) == bits_of(*old(v)).update(i as int, b),
{
    v.bits.set(i, b)
}

/// Relies on `BitSlice`'s indexing: reads the one addressed bit; it
/// panics only out of bounds, which the precondition rules out.
#[verifier::external_body]
pub fn bits_get(v: &BitGrid, i: usize) -> (r: bool)
    requires
        i < bits_of(*v).len(),
    ensures
        r == bits_of(*v)[i as int],
{
    v.bits[i]
}

} // verus!
