//! The random source that seeds a grid: a pseudo-random generator of
//! macroquad (quad-rand), held by value so that each grid has its own stream.
//! Such a generator is a fixed function of its seed: after `srand(seed)` its
//! `k`-th draw in `[0, n)` depends on `seed`, `k` and `n` alone.
use vstd::prelude::*;

verus! {

#[verifier::external_type_specification]
#[verifier::external_body]
pub struct ExRandGenerator(macroquad::rand::RandGenerator);

/// Relies on quad-rand's `RandGenerator::new`: a generator in its initial state.
pub assume_specification[ macroquad::rand::RandGenerator::new ]() -> macroquad::rand::RandGenerator;

/// Relies on quad-rand's `RandGenerator::srand`: restarts the generator's
/// stream from `seed`, through interior mutability.
pub assume_specification[ macroquad::rand::RandGenerator::srand ](
    g: &macroquad::rand::RandGenerator,
    seed: u64,
);

/// The draw in `[0, n)` that quad-rand's `gen_range(0, n)` returns as the
/// `k`-th draw (counting from zero) after `srand(seed)`.
pub uninterp spec fn seeded_draw(seed: u64, k: nat, n: u32) -> u32;

/// The `count` draws in `[0, n)` that follow the first `from` ones after
/// `srand(seed)`.
pub open spec fn seeded_draws(seed: u64, from: nat, count: nat, n: u32) -> Seq<u32> {
    Seq::new(count, |k: int| seeded_draw(seed, from + k as nat, n))
}

/// A generator started from a seed, with the number of draws taken from it
/// since. Draws are taken through `next_below` only.
pub struct SeededSource {
    generator: macroquad::rand::RandGenerator,
    seed: Ghost<u64>,
    taken: Ghost<nat>,
}

impl SeededSource {
    pub closed spec fn seed_spec(&self) -> u64 {
        self.seed@
    }

    pub closed spec fn taken_spec(&self) -> nat {
        self.taken@
    }

    /// A source whose stream starts from `seed`, with no draw taken yet.
    pub fn new(seed: u64) -> (s: SeededSource)
        ensures
            s.seed_spec() == seed,
            s.taken_spec() == 0,
    {
        let generator = macroquad::rand::RandGenerator::new();
        generator.srand(seed);
        SeededSource { generator, seed: Ghost(seed), taken: Ghost(0) }
    }

    /// Relies on quad-rand's `RandGenerator::gen_range` on `u32`: for `0 < n`
    /// it scales the next value of the seeded stream from `[0, 1)` to
    /// `[0, n)` and truncates, so the result is below `n`, and it takes
    /// exactly one value from the stream.
    #[verifier::external_body]
    pub fn next_below(&mut self, n: u32) -> (r: u32)
        requires
            0 < n,
        ensures
            r < n,
            r == seeded_draw(old(self).seed_spec(), old(self).taken_spec(), n),
            final(self).seed_spec() == old(self).seed_spec(),
            final(self).taken_spec() == old(self).taken_spec() + 1,
    {
        self.generator.gen_range(0u32, n)
    }
}

} // verus!
