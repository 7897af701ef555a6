use vstd::prelude::*;
use rand::seq::SliceRandom;

verus! {

/// Shuffles the vector in place with `rand`'s `SliceRandom::shuffle` and the thread-local
/// generator (`rand::thread_rng`). The order that comes out depends on the generator, so only
/// what every outcome has in common is stated: the same items, each as often as before.
/// (The shuffle only swaps items, so this holds of any outcome.)
#[verifier::external_body]
pub(crate) fn shuffle_vec<T>(v: &mut Vec<T>)
    ensures
        final(v)@.len() == old(v)@.len(),
        final(v)@.to_multiset() == old(v)@.to_multiset(),
{
    let mut rng = rand::thread_rng();
    v.shuffle(&mut rng);
}

} // verus!
