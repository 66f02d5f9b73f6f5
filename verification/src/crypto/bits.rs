use vstd::prelude::*;

use bit_vec::BitVec;

verus! {

#[verifier::external_type_specification]
#[verifier::external_body]
#[verifier::reject_recursive_types(B)]
pub struct ExBitVec<B>(BitVec<B>);

/// The bits that a bit vector holds, in order.
pub uninterp spec fn bits_of(bits: BitVec) -> Seq<bool>;

/// Calls `BitVec::from_elem`: a vector of `length` bits, each equal to `bit`.
#[verifier::external_body]
pub(crate) fn bits_from_elem(length: usize, bit: bool) -> (result: BitVec)
    ensures
        bits_of(result) == Seq::new(length as nat, |i: int| bit),
{
    BitVec::from_elem(length, bit)
}

/// Calls `BitVec::len`: the number of bits.
#[verifier::external_body]
pub(crate) fn bits_len(bits: &BitVec) -> (result: usize)
    ensures
        result == bits_of(*bits).len(),
{
    bits.len()
}

/// Calls `BitVec::get`: the bit at `index`, or `None` past the end.
#[verifier::external_body]
pub(crate) fn bits_get(bits: &BitVec, index: usize) -> (result: Option<bool>)
    ensures
        result == (if index < bits_of(*bits).len() {
            Some(bits_of(*bits)[index as int])
        } else {
            None
        }),
{
    bits.get(index)
}

/// Calls `BitVec::set`, which panics past the end: the bit at `index` becomes `bit`,
/// the others stay.
#[verifier::external_body]
pub(crate) fn bits_set(bits: &mut BitVec, index: usize, bit: bool)
    requires
        index < bits_of(*old(bits)).len(),
    ensures
        bits_of(*final(bits)) == bits_of(*old(bits)).update(index as int, bit),
{
    bits.set(index, bit)
}

/// Calls `BitVec::clone`: a vector of the same bits.
#[verifier::external_body]
pub(crate) fn bits_clone(bits: &BitVec) -> (result: BitVec)
    ensures
        bits_of(result) == bits_of(*bits),
{
    bits.clone()
}

/// The number of set bits.
pub open spec fn count_set(bits: Seq<bool>) -> nat
    decreases bits.len(),
{
    if bits.len() == 0 {
        0
    } else {
        count_set(bits.drop_last()) + if bits.last() {
            1nat
        } else {
            0nat
        }
    }
}

pub proof fn lemma_count_set_bound(bits: Seq<bool>)
    ensures
        count_set(bits) <= bits.len(),
    decreases bits.len(),
{
    if bits.len() > 0 {
        lemma_count_set_bound(bits.drop_last());
    }
}

/// The number of set bits of `bits`.
pub(crate) fn count_ones(bits: &BitVec) -> (result: usize)
    ensures
        result == count_set(bits_of(*bits)),
{
    let length = bits_len(bits);
    let ghost all = bits_of(*bits);
    let mut count: usize = 0;
    let mut index: usize = 0;
    while index < length
        invariant
            length == all.len(),
            all == bits_of(*bits),
            0 <= index <= length,
            count == count_set(all.take(index as int)),
        decreases length - index,
    {
        proof {
            lemma_count_set_bound(all.take(index as int));
            assert(all.take(index + 1).drop_last() =~= all.take(index as int));
        }
        let bit = bits_get(bits, index);
        if bit == Some(true) {
            count = count + 1;
        }
        index = index + 1;
    }
    assert(all.take(length as int) =~= all);
    count
}

} // verus!
