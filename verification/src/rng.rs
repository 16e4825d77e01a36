//! The uniform random source.
//!
//! All randomness enters the library through `Rand`, a thin handle on the
//! thread-local generator of the `rand` crate.  Its contracts state only
//! what holds of every outcome (a draw below a bound stays below it, a
//! shuffle permutes); everything decided from a drawn value is done by
//! verified code that takes the value as an argument.

use vstd::prelude::*;

use rand::Rng;
use rand::seq::SliceRandom;

use crate::dir::{Direction, Directions};

verus! {

#[verifier::external_type_specification]
#[verifier::external_body]
pub struct ExThreadRng(rand::rngs::ThreadRng);

/// A uniform random source backed by the thread-local generator.
pub struct Rand {
    rng: rand::rngs::ThreadRng,
}

impl Rand {
    /// Relies on `rand::rng`: a handle to the thread-local generator.
    #[verifier::external_body]
    pub fn new() -> Rand {
        Rand { rng: rand::rng() }
    }

    /// Relies on `Rng::random_range` over `0..n`: a value below `n`,
    /// panicking only when the range is empty, which the precondition rules
    /// out.
    #[verifier::external_body]
    pub fn below(&mut self, n: usize) -> (r: usize)
        requires
            n >= 1,
        ensures
            r < n,
    {
        self.rng.random_range(0..n)
    }

    /// Relies on `SliceRandom::shuffle`: an in-place permutation of the
    /// slice, so the new contents are the old contents rearranged.
    #[verifier::external_body]
    pub fn shuffle_dirs(&mut self, dirs: &mut [Direction; 4])
        ensures
            final(dirs)@.to_multiset() == old(dirs)@.to_multiset(),
    {
        dirs.shuffle(&mut self.rng)
    }

    /// Relies on `Rng::random`: an arbitrary machine word, used only to
    /// seed the textured-wall glyph hash.
    #[verifier::external_body]
    pub fn seed(&mut self) -> u64 {
        self.rng.random()
    }
}

impl Direction {
    /// One of the four directions, drawn from the random source.
    pub fn pick(rand: &mut Rand) -> Direction {
        match rand.below(4) {
            0 => Direction::North,
            1 => Direction::East,
            2 => Direction::South,
            _ => Direction::West,
        }
    }
}

impl Directions {
    /// A member of the set drawn from the random source, or `None` when the
    /// set is empty.
    pub fn pick(&self, rand: &mut Rand) -> (r: Option<Direction>)
        ensures
            r is Some <==> self.count() > 0,
            r matches Some(d) ==> self.has(d),
    {
        let n = self.len();
        if n == 0 {
            None
        } else {
            Some(self.nth(rand.below(n)))
        }
    }
}

} // verus!
