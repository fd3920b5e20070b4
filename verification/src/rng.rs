//! Deterministic pseudo-random number generator: a xorshift32 recurrence
//! augmented with a monotonically incrementing counter ("xorwow" style),
//! seeded from a fixed 4-byte seed so that every run is reproducible.
//! No cryptographic property is claimed.

use vstd::prelude::*;

verus! {

/// The additive constant mixed into the counter on every draw.
pub const COUNTER_STEP: u32 = 1234567891;

/// Counter-augmented xorshift32 state.
pub struct XorShift32 {
    pub state: u32,
    pub counter: u32,
}

/// The xorshift32 recurrence on the raw state word.
pub open spec fn spec_xorshift(s: u32) -> u32 {
    let a = s ^ (s << 13);
    let b = a ^ (a >> 17);
    b ^ (b << 5)
}

/// The state made from a 4-byte little-endian seed: the low bit of the
/// state word is forced to 1 so the xorshift state is never zero.
pub open spec fn spec_seeded(seed: Seq<u8>) -> XorShift32 {
    let word = (seed[0] as u32) | ((seed[1] as u32) << 8) | ((seed[2] as u32) << 16) | ((
    seed[3] as u32) << 24);
    XorShift32 { state: word | 1, counter: word }
}

/// One full draw: advance the state, bump the counter (wrapping), and
/// return their wrapping sum together with the new generator.
pub open spec fn spec_gen_u32(g: XorShift32) -> (u32, XorShift32) {
    let s = spec_xorshift(g.state);
    let c = g.counter.wrapping_add(COUNTER_STEP);
    (s.wrapping_add(c), XorShift32 { state: s, counter: c })
}

/// The all-ones mask over the low `bits` bits.
pub open spec fn spec_low_mask(bits: u32) -> u32 {
    (((1u32 << bits) as int) - 1) as u32
}

/// The low `bits` bits of one draw.
pub open spec fn spec_gen_bits(g: XorShift32, bits: u32) -> (u32, XorShift32) {
    let (r, g2) = spec_gen_u32(g);
    (r & spec_low_mask(bits), g2)
}

/// One random boolean: the low bit of one draw.
pub open spec fn spec_gen_bool(g: XorShift32) -> (bool, XorShift32) {
    let (r, g2) = spec_gen_bits(g, 1);
    (r != 0, g2)
}

/// A draw of `bits` bits is below `1 << bits`.
pub proof fn lemma_gen_bits_bound(g: XorShift32, bits: u32)
    requires
        bits < 32,
    ensures
        spec_gen_bits(g, bits).0 < (1u32 << bits),
{
    let b = bits;
    assert(forall|x: u32| b < 32 ==> #[trigger] (x & (((1u32 << b) as int - 1) as u32)) < (1u32
        << b)) by (bit_vector);
}

impl XorShift32 {
    /// Build the generator from a 4-byte seed, little-endian.
    pub fn new(seed: &[u8; 4]) -> (r: XorShift32)
        ensures
            r == spec_seeded(seed@),
    {
        let mut state = 0u32;
        state |= seed[0] as u32;
        state |= (seed[1] as u32) << 8;
        state |= (seed[2] as u32) << 16;
        state |= (seed[3] as u32) << 24;
        proof {
            let b0 = seed@[0] as u32;
            let b1 = seed@[1] as u32;
            let b2 = seed@[2] as u32;
            let b3 = seed@[3] as u32;
            assert((((0u32 | b0) | (b1 << 8)) | (b2 << 16)) | (b3 << 24) == b0 | (b1 << 8) | (b2
                << 16) | (b3 << 24)) by (bit_vector);
        }
        XorShift32 { state: state | 1, counter: state }
    }

    /// Draw 32 fresh bits and advance the generator.
    pub fn gen_u32(&mut self) -> (r: u32)
        ensures
            (r, *final(self)) == spec_gen_u32(*old(self)),
    {
        self.state ^= self.state << 13;
        self.state ^= self.state >> 17;
        self.state ^= self.state << 5;
        self.counter = self.counter.wrapping_add(COUNTER_STEP);
        self.state.wrapping_add(self.counter)
    }

    /// Draw a value with only the low `bits` bits set.
    pub fn gen_bits(&mut self, bits: u32) -> (r: u32)
        requires
            bits < 32,
        ensures
            (r, *final(self)) == spec_gen_bits(*old(self), bits),
            r < (1u32 << bits),
    {
        proof {
            let b = bits;
            assert(b < 32 ==> 1u32 << b >= 1) by (bit_vector);
            assert(forall|x: u32| b < 32 ==> #[trigger] (x & (((1u32 << b) as int - 1) as u32)) < (
            1u32 << b)) by (bit_vector);
        }
        let mask = (1u32 << bits) - 1;
        self.gen_u32() & mask
    }

    /// Draw one random boolean.
    pub fn gen_bool(&mut self) -> (r: bool)
        ensures
            (r, *final(self)) == spec_gen_bool(*old(self)),
    {
        self.gen_bits(1) > 0
    }
}

} // verus!
