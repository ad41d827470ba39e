use hibitset::BitSet;
use vstd::prelude::*;

verus! {

/// Indices below this bound can be added to a `BitSet` on every target:
/// its top layer is one machine word, so it holds `usize::BITS ** 4`
/// indices, at least 2^20.
pub const MAX_INDEX: u32 = 1048576;

#[verifier::external_type_specification]
#[verifier::external_body]
pub struct ExBitSet(BitSet);

/// The indices that a bit set holds.
pub uninterp spec fn bits_of(b: BitSet) -> Set<u32>;

/// Relies on hibitset::BitSet::new: a new set holds no index.
#[verifier::external_body]
pub(crate) fn bitset_new() -> (r: BitSet)
    ensures
        bits_of(r) == Set::<u32>::empty(),
{
    BitSet::new()
}

/// Relies on hibitset::BitSet::clear: every layer is emptied.
#[verifier::external_body]
pub(crate) fn bitset_clear(b: &mut BitSet)
    ensures
        bits_of(*final(b)) == Set::<u32>::empty(),
{
    b.clear()
}

/// Relies on hibitset::BitSet::add: the index is set, and the result says
/// whether it was set before. It panics only above the top layer's range.
#[verifier::external_body]
pub(crate) fn bitset_add(b: &mut BitSet, id: u32) -> (r: bool)
    requires
        id < MAX_INDEX,
    ensures
        bits_of(*final(b)) == bits_of(*old(b)).insert(id),
        r == bits_of(*old(b)).contains(id),
{
    b.add(id)
}

/// Relies on hibitset::BitSet::contains: whether the index is set.
#[verifier::external_body]
pub(crate) fn bitset_contains(b: &BitSet, id: u32) -> (r: bool)
    ensures
        r == bits_of(*b).contains(id),
{
    b.contains(id)
}

} // verus!
