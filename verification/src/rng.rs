use vstd::prelude::*;

verus! {

/// One step of the generator: the state advances by a fixed odd increment,
/// wrapping at 64 bits.
pub open spec fn mix_state(s: u64) -> u64 {
    vstd::wrapping::u64_specs::wrapping_add(s, 0x9E3779B97F4A7C15u64)
}

/// The output word drawn from a state: two xor-shift-multiply rounds followed
/// by a final xor-shift, so that nearby states give unrelated outputs.
pub open spec fn squeeze(s: u64) -> u64 {
    let z1 = vstd::wrapping::u64_specs::wrapping_mul(s ^ (s >> 30u64), 0xBF58476D1CE4E5B9u64);
    let z2 = vstd::wrapping::u64_specs::wrapping_mul(z1 ^ (z1 >> 27u64), 0x94D049BB133111EBu64);
    z2 ^ (z2 >> 31u64)
}

/// The integer that one draw over the inclusive range `[min, max]` returns,
/// as a function of the generator state alone.
pub open spec fn draw_integer(s: u64, min: i64, max: i64) -> i64 {
    let z = squeeze(mix_state(s));
    (min + (z as int % (max - min + 1))) as i64
}

/// The value below `bound` that one double-width draw returns, as a function
/// of the generator state alone: two output words joined to 128 bits, reduced
/// modulo the bound.
pub open spec fn draw_below(s: u64, bound: u128) -> u128 {
    let hi = squeeze(mix_state(s));
    let lo = squeeze(mix_state(mix_state(s)));
    (((hi as int) * 0x1_0000_0000_0000_0000 + (lo as int)) % (bound as int)) as u128
}

/// A deterministic random source.
///
/// The generator is an explicit value, handed to every randomized operation,
/// so reproducibility is visible at each call site: the view `rng@` is the
/// current state, [`RandomGenerator::seed`] fixes it, and every draw's
/// contract gives the result and the successor state as functions of that
/// state alone. Two generators seeded alike therefore answer every sequence
/// of draws alike.
pub struct RandomGenerator {
    state: u64,
}

impl View for RandomGenerator {
    type V = u64;

    closed spec fn view(&self) -> u64 {
        self.state
    }
}

impl RandomGenerator {
    /// A generator deterministically reset to `seed`: all subsequent draws
    /// are reproducible from this value.
    pub fn seed(seed: u64) -> (rng: RandomGenerator)
        ensures
            rng@ == seed,
    {
        RandomGenerator { state: seed }
    }

    /// Advances the state once and returns the output word of the new state.
    pub fn next_u64(&mut self) -> (r: u64)
        ensures
            final(self)@ == mix_state(old(self)@),
            r == squeeze(mix_state(old(self)@)),
    {
        self.state = self.state.wrapping_add(0x9E3779B97F4A7C15);
        let z0 = self.state;
        let z1 = (z0 ^ (z0 >> 30)).wrapping_mul(0xBF58476D1CE4E5B9);
        let z2 = (z1 ^ (z1 >> 27)).wrapping_mul(0x94D049BB133111EB);
        z2 ^ (z2 >> 31)
    }

    /// Draws an integer from the inclusive range `[min, max]`, advancing the
    /// state once. Both the result and the new state are pinned by the
    /// contract, so a draw is reproducible from the state alone.
    pub fn get_integer(&mut self, min: i64, max: i64) -> (r: i64)
        requires
            min <= max,
        ensures
            min <= r <= max,
            r == draw_integer(old(self)@, min, max),
            final(self)@ == mix_state(old(self)@),
    {
        let z = self.next_u64();
        let span: i128 = (max as i128) - (min as i128) + 1;
        let v: i128 = (z as i128) % span;
        ((min as i128) + v) as i64
    }

    /// Draws a value from `[0, bound)`, advancing the state twice. Used where
    /// a candidate space can be wider than one output word. Both the result
    /// and the new state are pinned by the contract.
    pub fn next_below(&mut self, bound: u128) -> (r: u128)
        requires
            bound >= 1,
        ensures
            r < bound,
            r == draw_below(old(self)@, bound),
            final(self)@ == mix_state(mix_state(old(self)@)),
    {
        let hi = self.next_u64();
        let lo = self.next_u64();
        ((hi as u128) * 0x1_0000_0000_0000_0000u128 + (lo as u128)) % bound
    }
}

} // verus!
