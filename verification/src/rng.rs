use vstd::prelude::*;

verus! {

/// The pseudo-random generator every stochastic operation draws from.
/// It is always supplied by the caller, so every stochastic path is
/// replayable given the same seed.
#[verifier::external_type_specification]
#[verifier::external_body]
pub struct ExStdRng(rand::rngs::StdRng);

/// Relies on rand::Rng::gen_range over the non-empty range 1..=6: the
/// sample lies in that range.
#[verifier::external_body]
pub(crate) fn roll_die(rng: &mut rand::rngs::StdRng) -> (r: u8)
    ensures
        1 <= r <= 6,
{
    rand::Rng::gen_range(rng, 1..=6u8)
}

/// Relies on rand::Rng::gen_range over the non-empty range 0..n: the
/// sample lies below n.
#[verifier::external_body]
pub(crate) fn pick_index(rng: &mut rand::rngs::StdRng, n: usize) -> (r: usize)
    requires
        n > 0,
    ensures
        r < n,
{
    rand::Rng::gen_range(rng, 0..n)
}

/// Relies on rand::seq::SliceRandom::shuffle: it permutes the slice in
/// place, so the multiset of elements (and hence the length) is kept.
#[verifier::external_body]
pub(crate) fn shuffle_vec<T>(rng: &mut rand::rngs::StdRng, v: &mut Vec<T>)
    ensures
        final(v)@.to_multiset() == old(v)@.to_multiset(),
        final(v)@.len() == old(v)@.len(),
{
    rand::seq::SliceRandom::shuffle(v.as_mut_slice(), rng)
}

} // verus!
