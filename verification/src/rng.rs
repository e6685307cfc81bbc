//! The randomness source: a seeded deterministic stream of uniform draws.
//!
//! The stream wraps `rand`'s standard generator. The generator is a pure
//! function of its seed and of the sequence of requests made of it, so each
//! draw is pinned, in ghost state, to the seed and to the history of requests
//! that preceded it. A request history is a sequence with one entry per
//! request: the bound for an index draw, or the `word_draw` marker for a raw
//! 64-bit draw.

use vstd::prelude::*;

verus! {

/// History marker for a raw 64-bit draw (index draws record their bound,
/// which is always positive).
pub open spec fn word_draw() -> int {
    -1
}

/// A request history of `k` identical entries.
pub open spec fn const_hist(entry: int, k: nat) -> Seq<int> {
    Seq::new(k, |i: int| entry)
}

/// The uniform index that `rand::Rng::gen_range(0..bound)` returns on the
/// standard generator seeded with `seed`, after the requests in `history`.
/// The generator is deterministic, so the draw is a function of these alone.
pub uninterp spec fn uniform_index_draw(seed: u64, history: Seq<int>, bound: int) -> int;

/// The word that `rand::RngCore::next_u64` returns on the standard generator
/// seeded with `seed`, after the requests in `history`.
pub uninterp spec fn stdrng_next_word(seed: u64, history: Seq<int>) -> u64;

/// Declares `rand::rngs::StdRng` so the stream can hold one; the generator
/// is opaque to the verifier and is reached only through the items below.
#[verifier::external_type_specification]
#[verifier::external_body]
pub struct ExStdRng(rand::rngs::StdRng);

/// A seeded deterministic generator together with the ghost record of the
/// seed it was built from and the requests made of it so far.
pub struct RandomStream {
    rng: rand::rngs::StdRng,
    seed: Ghost<u64>,
    history: Ghost<Seq<int>>,
}

impl RandomStream {
    /// The seed this stream was built from.
    pub closed spec fn seed(&self) -> u64 {
        self.seed@
    }

    /// The requests made of this stream so far.
    pub closed spec fn history(&self) -> Seq<int> {
        self.history@
    }

    /// Relies on `rand::SeedableRng::seed_from_u64` for `rand::rngs::StdRng`:
    /// it builds a deterministic generator whose stream is a function of the
    /// seed alone.
    #[verifier::external_body]
    pub fn from_seed(seed: u64) -> (r: RandomStream)
        ensures
            r.seed() == seed,
            r.history() == Seq::<int>::empty(),
    {
        RandomStream {
            rng: rand::SeedableRng::seed_from_u64(seed),
            seed: Ghost(seed),
            history: Ghost(Seq::empty()),
        }
    }

    /// Relies on `rand::Rng::gen_range` over `0..bound`: a draw below `bound`,
    /// deterministic in the generator's seed and prior requests.
    #[verifier::external_body]
    pub fn draw_index(&mut self, bound: usize) -> (r: usize)
        requires
            bound > 0,
        ensures
            final(self).seed() == old(self).seed(),
            final(self).history() == old(self).history().push(bound as int),
            r == uniform_index_draw(old(self).seed(), old(self).history(), bound as int),
            r < bound,
    {
        let drawn: u64 = rand::Rng::gen_range(&mut self.rng, 0u64..bound as u64);
        drawn as usize
    }

    /// Relies on `rand::RngCore::next_u64`: the next 64-bit word of the
    /// stream, deterministic in the generator's seed and prior requests.
    #[verifier::external_body]
    pub fn draw_word(&mut self) -> (r: u64)
        ensures
            final(self).seed() == old(self).seed(),
            final(self).history() == old(self).history().push(word_draw()),
            r == stdrng_next_word(old(self).seed(), old(self).history()),
    {
        rand::RngCore::next_u64(&mut self.rng)
    }
}

/// Constant histories concatenate by adding their lengths.
pub proof fn lemma_const_hist_add(entry: int, j: nat, k: nat)
    ensures
        const_hist(entry, j) + const_hist(entry, k) =~= const_hist(entry, (j + k) as nat),
{
}

} // verus!
