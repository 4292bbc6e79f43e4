//! A small xorshift64 generator used to derive every random choice of a
//! generated logo from its seed.

use vstd::prelude::*;

verus! {

/// One xorshift64 step: shifts by 13 left, 7 right and 17 left.
pub open spec fn xorshift(x: u64) -> u64 {
    let a = x ^ (x << 13u64);
    let b = a ^ (a >> 7u64);
    b ^ (b << 17u64)
}

/// The state a generator seeded with `seed` starts from: the seed, or 1 for seed 0.
pub open spec fn seed_state(seed: u64) -> u64 {
    if seed == 0 { 1 } else { seed }
}

/// The state after `n` steps from `state`.
pub open spec fn state_after(state: u64, n: nat) -> u64
    decreases n,
{
    if n == 0 { state } else { xorshift(state_after(state, (n - 1) as nat)) }
}

/// The divisor `range_i32(min, max)` takes the raw output modulo: `max - min`
/// as a 64-bit unsigned number (sign-extended, so huge when `max < min`).
pub open spec fn range_i32_span(min: i32, max: i32) -> u64 {
    ((max - min) as i32) as u64
}

/// The value returned by `range_i32(min, max)` when the next raw output is
/// `raw`: `min` plus the remainder, truncated to 32 bits.
pub open spec fn spec_range_i32(raw: u64, min: i32, max: i32) -> int {
    min + ((raw % range_i32_span(min, max)) as i32)
}

/// The value returned by `range_u8(min, max)` when the next raw output is `raw`.
pub open spec fn spec_range_u8(raw: u64, min: u8, max: u8) -> int {
    min + (raw % ((max - min) as u64)) as int
}

/// A xorshift64 pseudo-random generator. Its state is never zero.
pub struct SmallRng {
    state: u64,
}

impl View for SmallRng {
    type V = u64;

    closed spec fn view(&self) -> u64 {
        self.state
    }
}

/// A nonzero state stays nonzero after one step.
pub proof fn lemma_xorshift_nonzero(x: u64)
    requires
        x != 0,
    ensures
        xorshift(x) != 0,
{
    assert(x != 0 ==> (x ^ (x << 13u64)) != 0) by (bit_vector);
    let a = x ^ (x << 13u64);
    assert(a != 0 ==> (a ^ (a >> 7u64)) != 0) by (bit_vector);
    let b = a ^ (a >> 7u64);
    assert(b != 0 ==> (b ^ (b << 17u64)) != 0) by (bit_vector);
}

impl SmallRng {
    #[verifier::type_invariant]
    spec fn state_nonzero(self) -> bool {
        self.state != 0
    }

    /// A generator seeded with `seed`; seed 0 behaves as seed 1.
    pub fn new(seed: u64) -> (rng: Self)
        ensures
            rng@ == seed_state(seed),
    {
        let state = if seed > 1 { seed } else { 1 };
        SmallRng { state }
    }

    /// The next raw 64-bit output; the state advances to it.
    pub fn next_u64(&mut self) -> (r: u64)
        ensures
            r == xorshift(old(self)@),
            r != 0,
            final(self)@ == r,
    {
        proof {
            use_type_invariant(&*self);
            lemma_xorshift_nonzero(self.state);
        }
        let mut x = self.state;
        x = x ^ (x << 13u64);
        x = x ^ (x >> 7u64);
        x = x ^ (x << 17u64);
        self.state = x;
        x
    }

    /// Whether the lowest bit of the next raw output is set.
    pub fn next_bool(&mut self) -> (b: bool)
        ensures
            b == (xorshift(old(self)@) & 1 == 1),
            final(self)@ == xorshift(old(self)@),
    {
        self.next_u64() & 1 == 1
    }

    /// The next raw output, taken as a `usize`, modulo `max`.
    pub fn range_usize(&mut self, max: usize) -> (r: usize)
        requires
            max > 0,
        ensures
            r == (xorshift(old(self)@) as usize) % max,
            r < max,
            final(self)@ == xorshift(old(self)@),
    {
        (self.next_u64() as usize) % max
    }

    /// `min` plus the next raw output modulo `max - min`: a value in
    /// `min..max` where `min < max`. It panics where `max == min` or where
    /// `max - min` or the final sum overflows, which `requires` leaves out.
    pub fn range_i32(&mut self, min: i32, max: i32) -> (r: i32)
        requires
            min != max,
            i32::MIN <= max - min <= i32::MAX,
            i32::MIN <= spec_range_i32(xorshift(old(self)@), min, max) <= i32::MAX,
        ensures
            r == spec_range_i32(xorshift(old(self)@), min, max),
            min < max ==> min <= r < max,
            final(self)@ == xorshift(old(self)@),
    {
        proof {
            let span = range_i32_span(min, max);
            assert(span != 0) by (bit_vector)
                requires
                    min != max,
                    i32::MIN <= max - min <= i32::MAX,
                    span == ((max - min) as i32) as u64;
        }
        let span = (max - min) as u64;
        let raw = self.next_u64();
        let offset = raw % span;
        min + offset as i32
    }

    /// A value in `min..max`: `min` plus the next raw output modulo `max - min`.
    pub fn range_u8(&mut self, min: u8, max: u8) -> (r: u8)
        requires
            min < max,
        ensures
            r == spec_range_u8(xorshift(old(self)@), min, max),
            min <= r < max,
            final(self)@ == xorshift(old(self)@),
    {
        let span = (max - min) as u64;
        let raw = self.next_u64();
        let offset = raw % span;
        min + offset as u8
    }
}

} // verus!

verus! {

/// A generator's state is never zero, however many values it has produced:
/// xorshift never reaches the all-zero state, from which it could not leave.
pub proof fn law_stream_never_zero(seed: u64, n: nat)
    ensures
        state_after(seed_state(seed), n) != 0,
    decreases n,
{
    if n > 0 {
        law_stream_never_zero(seed, (n - 1) as nat);
        lemma_xorshift_nonzero(state_after(seed_state(seed), (n - 1) as nat));
    }
}

} // verus!

verus! {

/// For `min < max` (with `max - min` in `i32`) `range_i32` is `min` plus
/// the raw output modulo `max - min`, and `range_u8` likewise.
pub proof fn law_ranges_are_remainders(raw: u64, min: i32, max: i32, lo: u8, hi: u8)
    requires
        min < max,
        max - min <= i32::MAX,
        lo < hi,
    ensures
        spec_range_i32(raw, min, max) == min + (raw as int) % ((max - min) as int),
        spec_range_u8(raw, lo, hi) == lo + (raw as int) % ((hi - lo) as int),
        min <= spec_range_i32(raw, min, max) < max,
        lo <= spec_range_u8(raw, lo, hi) < hi,
{
    let span = range_i32_span(min, max);
    assert(span == max - min);
    let offset = raw % span;
    assert(offset < span);
    assert(offset as i32 == offset);
    let s8 = (hi - lo) as u64;
    assert(s8 == hi - lo);
    assert(raw % s8 < s8);
}

} // verus!
