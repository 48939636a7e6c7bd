//! The injectable source of randomness for tile spawning.
//!
//! The game asks its random source for three kinds of draws: one of `n`
//! empty positions, one of two weighted tile values, and a coin flip that
//! decides whether a spawn stops after one tile. A deterministic seeded
//! source drives reproducible games; the thread-local source drives real
//! play.

use vstd::prelude::*;
use rand::Rng;
use rand::distributions::Distribution;

verus! {

/// A source of the random draws that tile spawning needs.
pub trait RandomSource {
    /// Pick one of `n` possibilities.
    fn pick_index(&mut self, n: usize) -> (r: usize)
        requires
            n >= 1,
        ensures
            r < n,
    ;

    /// Pick 0 with weight `w0` against 1 with weight `w1`.
    fn pick_weighted(&mut self, w0: u32, w1: u32) -> (r: usize)
        requires
            w0 >= 1,
            w1 >= 1,
            w0 + w1 <= u32::MAX,
        ensures
            r < 2,
    ;

    /// Flip a coin.
    fn pick_bool(&mut self) -> bool;
}

/// A deterministic random source: a linear congruential generator on 64
/// bits, for reproducible games and regression tests.
pub struct SeededRandom {
    state: u64,
}

impl SeededRandom {
    pub fn new(seed: u64) -> (r: SeededRandom) {
        SeededRandom { state: seed }
    }

    fn next(&mut self) -> (r: u64) {
        self.state = self.state.wrapping_mul(6364136223846793005).wrapping_add(1442695040888963407);
        self.state >> 33
    }
}

impl RandomSource for SeededRandom {
    fn pick_index(&mut self, n: usize) -> (r: usize) {
        let x = self.next();
        (x % (n as u64)) as usize
    }

    fn pick_weighted(&mut self, w0: u32, w1: u32) -> (r: usize) {
        let total: u64 = w0 as u64 + w1 as u64;
        let x = self.next() % total;
        if x < w0 as u64 {
            0
        } else {
            1
        }
    }

    fn pick_bool(&mut self) -> bool {
        let x = self.next();
        x & 1 == 0
    }
}

/// The process-wide random source, backed by `rand`'s thread-local
/// generator.
pub struct ThreadRandom {
}

impl ThreadRandom {
    pub fn new() -> (r: ThreadRandom) {
        ThreadRandom {  }
    }
}

/// Relies on rand::Rng::gen_range over the range `0..n`, which returns a
/// value of that nonempty range.
#[verifier::external_body]
fn rand_below(n: usize) -> (r: usize)
    requires
        n >= 1,
    ensures
        r < n,
{
    rand::thread_rng().gen_range(0..n)
}

/// Relies on rand::distributions::WeightedIndex over two nonzero weights
/// whose sum fits in `u32`: `new` accepts them, and `sample` returns the
/// index of one of the two.
#[verifier::external_body]
fn rand_weighted_pair(w0: u32, w1: u32) -> (r: usize)
    requires
        w0 >= 1,
        w1 >= 1,
        w0 + w1 <= u32::MAX,
    ensures
        r < 2,
{
    let dist = rand::distributions::WeightedIndex::new([w0, w1]).unwrap();
    dist.sample(&mut rand::thread_rng())
}

/// Relies on rand::random for a bool.
#[verifier::external_body]
fn rand_bool() -> (r: bool)
{
    rand::random()
}

impl RandomSource for ThreadRandom {
    fn pick_index(&mut self, n: usize) -> (r: usize) {
        rand_below(n)
    }

    fn pick_weighted(&mut self, w0: u32, w1: u32) -> (r: usize) {
        rand_weighted_pair(w0, w1)
    }

    fn pick_bool(&mut self) -> bool {
        rand_bool()
    }
}

} // verus!
