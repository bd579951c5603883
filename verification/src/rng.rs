//! The random source that mine generation draws from.
//!
//! The core never seeds or owns a generator: callers supply one capability,
//! a uniform draw from a half-open range. A deterministic source backed by a
//! list of prepared values is provided for reproducible boards, and a thread-
//! local source backed by the `rand` crate for real play.

use vstd::prelude::*;
use rand::Rng;

verus! {

/// A supplier of uniform integers: `uniform_int(low, high)` returns a value
/// in `[low, high)`.
pub trait RandomSource {
    fn uniform_int(&mut self, low: usize, high: usize) -> (r: usize)
        requires
            low < high,
        ensures
            low <= r < high,
    ;
}

/// A deterministic source that replays a prepared list of draws; a prepared
/// value outside the requested range, or an exhausted list, yields `low`.
pub struct FixedSource {
    values: Vec<usize>,
    next: usize,
}

impl FixedSource {
    pub fn new(values: Vec<usize>) -> (s: FixedSource) {
        FixedSource { values, next: 0 }
    }
}

impl RandomSource for FixedSource {
    fn uniform_int(&mut self, low: usize, high: usize) -> (r: usize) {
        if self.next < self.values.len() {
            let v = self.values[self.next];
            self.next = self.next + 1;
            if low <= v && v < high {
                v
            } else {
                low
            }
        } else {
            low
        }
    }
}

#[verifier::external_type_specification]
#[verifier::external_body]
pub struct ExThreadRng(rand::rngs::ThreadRng);

/// The thread-local generator of the `rand` crate.
pub struct ThreadRandom {
    inner: rand::rngs::ThreadRng,
}

impl ThreadRandom {
    /// Relies on `rand::thread_rng`: hands out the lazily initialized
    /// thread-local generator.
    #[verifier::external_body]
    pub fn new() -> (t: ThreadRandom) {
        ThreadRandom { inner: rand::thread_rng() }
    }

    /// Relies on `rand::Rng::gen_range(low, high)`: a uniform draw in
    /// `[low, high)`; it panics unless `low < high`, which `requires`
    /// excludes.
    #[verifier::external_body]
    fn draw(&mut self, low: usize, high: usize) -> (r: usize)
        requires
            low < high,
        ensures
            low <= r < high,
    {
        self.inner.gen_range(low, high)
    }
}

impl RandomSource for ThreadRandom {
    fn uniform_int(&mut self, low: usize, high: usize) -> (r: usize) {
        self.draw(low, high)
    }
}

} // verus!
