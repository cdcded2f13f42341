//! The packed bit storage behind a binary image.
//!
//! The bits live in a `bit_vec::BitVec`. What that vector holds is named by
//! [`bit_seq`]; the functions below say what each call does to it, as the
//! vector's own source shows.
use bit_vec::BitVec;
use vstd::prelude::*;

verus! {

/// `bit_vec::BitVec`, taken as a whole: nothing is known of a vector but
/// what the functions below say of its bits.
#[verifier::external_type_specification]
#[verifier::external_body]
#[verifier::reject_recursive_types(B)]
pub struct ExBitVec<B>(bit_vec::BitVec<B>);

/// The bits of a vector, in index order.
pub uninterp spec fn bit_seq(v: BitVec) -> Seq<bool>;

/// `BitVec::from_elem`: a vector of `nbits` bits, each equal to `bit`.
#[verifier::external_body]
pub(crate) fn bits_filled(nbits: usize, bit: bool) -> (v: BitVec)
    ensures
        bit_seq(v) == Seq::new(nbits as nat, |i: int| bit),
{
    BitVec::from_elem(nbits, bit)
}

/// `BitVec::clone`: a second vector with the same bits.
#[verifier::external_body]
pub(crate) fn bits_clone(v: &BitVec) -> (copy: BitVec)
    ensures
        bit_seq(copy) == bit_seq(*v),
{
    v.clone()
}

/// `BitVec::len`: the number of bits held.
#[verifier::external_body]
pub(crate) fn bits_len(v: &BitVec) -> (n: usize)
    ensures
        n == bit_seq(*v).len(),
{
    v.len()
}

/// `BitVec::get`: the bit at `i`, or `None` past the end.
#[verifier::external_body]
pub(crate) fn bits_get(v: &BitVec, i: usize) -> (bit: Option<bool>)
    ensures
        bit == if i < bit_seq(*v).len() {
            Some(bit_seq(*v)[i as int])
        } else {
            None
        },
{
    v.get(i)
}

/// `BitVec::set`: overwrites the bit at `i` and leaves the others alone.
/// The call panics past the end, so `i` must be in range.
#[verifier::external_body]
pub(crate) fn bits_set(v: &mut BitVec, i: usize, bit: bool)
    requires
        i < bit_seq(*old(v)).len(),
    ensures
        bit_seq(*final(v)) == bit_seq(*old(v)).update(i as int, bit),
{
    v.set(i, bit)
}

} // verus!
