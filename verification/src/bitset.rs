//! The packed bit buffer of the `fixedbitset` crate, and what is assumed of it.
//!
//! Nothing in this file is proved. Each item states, over the sequence of bits
//! that a buffer holds, what the crate's source shows of one of its functions.

use fixedbitset::FixedBitSet;
use vstd::prelude::*;

verus! {

/// `fixedbitset::FixedBitSet`, a buffer of bits of a fixed length, packed in
/// 32-bit words. Nothing of its inside is known here but through `bits_of`.
#[verifier::external_type_specification]
#[verifier::external_body]
pub struct ExFixedBitSet(fixedbitset::FixedBitSet);

/// The bits that a buffer holds, bit `i` at position `i`; its length is the
/// buffer's length in bits.
pub uninterp spec fn bits_of(set: FixedBitSet) -> Seq<bool>;

/// A sequence of `len` cleared bits.
pub open spec fn cleared(len: nat) -> Seq<bool> {
    Seq::new(len, |i: int| false)
}

/// Whether `blocks` are the 32-bit words that hold `bits`: bit `i` is bit
/// `i % 32` of word `i / 32`, and there are just enough words.
pub open spec fn packed_in(bits: Seq<bool>, blocks: Seq<u32>) -> bool {
    &&& blocks.len() == (bits.len() + 31) / 32
    &&& forall|i: int|
        0 <= i < bits.len() ==> #[trigger] bits[i] == ((blocks[i / 32] >> ((i % 32) as u32)) & 1
            == 1)
}

/// `FixedBitSet::with_capacity`: a buffer of `bits` bits, all clear.
pub assume_specification[ FixedBitSet::with_capacity ](bits: usize) -> (set: FixedBitSet)
    ensures
        bits_of(set) == cleared(bits as nat),
;

/// `FixedBitSet::set`: writes `enabled` to one bit and leaves the others. It
/// panics when `bit` is not below the length.
pub assume_specification[ FixedBitSet::set ](set: &mut FixedBitSet, bit: usize, enabled: bool)
    requires
        bit < bits_of(*old(set)).len(),
    ensures
        bits_of(*final(set)) == bits_of(*old(set)).update(bit as int, enabled),
;

/// `FixedBitSet::toggle`: inverts one bit and leaves the others. It panics
/// when `bit` is not below the length.
pub assume_specification[ FixedBitSet::toggle ](set: &mut FixedBitSet, bit: usize)
    requires
        bit < bits_of(*old(set)).len(),
    ensures
        bits_of(*final(set)) == bits_of(*old(set)).update(
            bit as int,
            !bits_of(*old(set))[bit as int],
        ),
;

/// `FixedBitSet::as_slice`: the words behind the buffer.
pub assume_specification[ FixedBitSet::as_slice ](set: &FixedBitSet) -> (blocks: &[u32])
    ensures
        packed_in(bits_of(*set), blocks@),
;

/// `Clone::clone` of `FixedBitSet`: a buffer with the same bits.
pub assume_specification[ <FixedBitSet as Clone>::clone ](set: &FixedBitSet) -> (copy: FixedBitSet)
    ensures
        bits_of(copy) == bits_of(*set),
;

/// Indexing a `FixedBitSet` by a position below its length: the bit there.
#[verifier::external_body]
pub(crate) fn bit_at(set: &FixedBitSet, bit: usize) -> (enabled: bool)
    requires
        bit < bits_of(*set).len(),
    ensures
        enabled == bits_of(*set)[bit as int],
{
    set[bit]
}

/// `FixedBitSet::set_range` over the full range with `false`: every bit is
/// cleared, the length stays.
#[verifier::external_body]
pub(crate) fn clear_all(set: &mut FixedBitSet)
    ensures
        bits_of(*final(set)) == cleared(bits_of(*old(set)).len()),
{
    set.set_range(.., false);
}

} // verus!
