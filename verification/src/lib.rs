//! A verified text "uwuifier": a fixed-capacity bit-parallel multi-pattern
//! matcher drives a pattern-substitution pass, followed by three further
//! block-based rewrite passes (nya-ification, letter substitution with
//! stutters, emoji insertion), and a ticket-ordered pipeline that keeps
//! output chunks in input order.

pub mod rng;
pub mod tables;
pub mod bitap;
pub mod laws;
pub mod passes;
pub mod pipeline;

pub use passes::uwuify;
pub use passes::uwuify_str;

use vstd::prelude::*;

verus! {

/// `n` rounded up to the next multiple of 16, as a mathematical value.
pub open spec fn spec_round_up16(n: int) -> int {
    ((n + 15) / 16) * 16
}

/// Round `n` up to the next multiple of 16; useful for sizing buffers,
/// since the rewrite passes work on 16-byte blocks.
pub fn round_up16(n: usize) -> (r: usize)
    requires
        n + 15 <= usize::MAX,
    ensures
        r == spec_round_up16(n as int),
        n <= r < n + 16,
        r % 16 == 0,
{
    let r = (n + 15) / 16 * 16;
    proof {
        lemma_round_up16_bounds(n as int);
    }
    r
}

/// Basic facts about rounding up to a multiple of 16.
pub proof fn lemma_round_up16_bounds(n: int)
    requires
        n >= 0,
    ensures
        n <= spec_round_up16(n) < n + 16,
        spec_round_up16(n) % 16 == 0,
        n % 16 == 0 ==> spec_round_up16(n) == n,
{
    assert(n <= ((n + 15) / 16) * 16 < n + 16 && ((n + 15) / 16) * 16 % 16 == 0 && (n % 16 == 0
        ==> ((n + 15) / 16) * 16 == n)) by (nonlinear_arith)
        requires
            n >= 0,
    ;
}

/// Rounding up never passes a multiple of 16 that is already at or above
/// the value.
pub proof fn lemma_round_up16_le(a: int, b: int)
    requires
        0 <= a <= b,
        b % 16 == 0,
    ensures
        spec_round_up16(a) <= b,
{
    assert(((a + 15) / 16) * 16 <= b) by (nonlinear_arith)
        requires
            0 <= a <= b,
            b % 16 == 0,
    ;
}

} // verus!
