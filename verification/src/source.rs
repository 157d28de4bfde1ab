//! Where the indices come from: anything that can hand out an index below a
//! given bound.

use rand::Rng;
use rand_chacha::ChaCha20Rng;
use vstd::prelude::*;

verus! {

/// A source of indices. Each call hands out one index below the bound it is
/// given. What else holds of the index, and of the source afterwards, is for
/// the implementation to say, in `yields`.
pub trait IndexSource: Sized {
    /// Whether the source, as it stands, can hand out `index` for `bound` and
    /// stand as `after` when it has. Unless an implementation says more, any
    /// index below the bound can come, and the source can be left in any
    /// state.
    open spec fn yields(&self, bound: usize, index: usize, after: &Self) -> bool {
        index < bound
    }

    /// An index in `[0, bound)`.
    fn next_index(&mut self, bound: usize) -> (index: usize)
        requires
            bound > 0,
        ensures
            index < bound,
            old(self).yields(bound, index, final(self)),
    ;
}

/// `rand_chacha::ChaCha20Rng`, carried through as it is: nothing is known of
/// its state.
#[verifier::external_type_specification]
#[verifier::external_body]
pub struct ExChaCha20Rng(ChaCha20Rng);

/// The ChaCha generator with 20 rounds as a source of indices, seeded as the
/// caller chose. Its state is hidden, so it says no more of `yields` than the
/// trait does: any index below the bound can come.
impl IndexSource for ChaCha20Rng {
    fn next_index(&mut self, bound: usize) -> (index: usize) {
        chacha20_index_below(self, bound)
    }
}

/// Calls `rand::Rng::random_range` on the generator with the range
/// `0..bound`. The range is not empty, so the call does not panic, and the
/// index it returns lies in the range. Which index that is depends on the
/// generator's state and is left open.
#[verifier::external_body]
fn chacha20_index_below(rng: &mut ChaCha20Rng, bound: usize) -> (index: usize)
    requires
        bound > 0,
    ensures
        index < bound,
{
    rng.random_range(0..bound)
}

} // verus!
