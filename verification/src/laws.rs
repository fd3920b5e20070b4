//! Laws that hold across the passes: the transform of the empty stream,
//! and chunk-boundary transparency of the pipeline on streams that no
//! pass rewrites.

use vstd::prelude::*;

use crate::bitap::{
    lemma_find_match_skip, spec_find_match, spec_pattern_matched, spec_state_bit,
};
use crate::tables::spec_patterns;
use crate::passes::{
    spec_block, spec_emoji_block, spec_emoji_cat, spec_emoji_pass, spec_emoji_trigger,
    spec_first_emoji_from, spec_first_stutter_from, spec_letter_sub, spec_mapped_block,
    spec_nya_block_upto, spec_nya_cat, spec_nya_pass, spec_nya_trigger, spec_pad16,
    spec_stutter_cat, spec_stutter_pass, spec_stutter_trigger, spec_substitute,
    spec_substitute_fold, spec_transform,
};
use crate::pipeline::spec_pipeline;
use crate::rng::XorShift32;
use crate::tables::lemma_patterns_wf;
use crate::{lemma_round_up16_bounds, spec_round_up16};

verus! {

/// The transform of the empty stream is empty.
pub proof fn lemma_transform_empty()
    ensures
        spec_transform(Seq::<u8>::empty()) == Seq::<u8>::empty(),
{
    let e = Seq::<u8>::empty();
    assert(spec_round_up16(0) == 0);
    assert(spec_pad16(e) =~= e);
    let g0 = crate::rng::spec_seeded(crate::passes::spec_seed());
    assert(spec_substitute(e) =~= e);
    assert(spec_nya_cat(e, 0) =~= e);
    assert(spec_nya_pass(e) =~= e);
    assert(spec_stutter_cat(e, 0, g0).0 =~= e);
    assert(spec_stutter_pass(e, g0).0 =~= e);
    let g1 = spec_stutter_pass(e, g0).1;
    assert(spec_emoji_cat(e, 0, g1).0 =~= e);
    assert(spec_emoji_pass(e, g1).0 =~= e);
}

// ---------------------------------------------------------------------
// Inert bytes: bytes no pass rewrites.
// ---------------------------------------------------------------------
/// A byte that every pass leaves alone: a lowercase letter that is not
/// rewritten by the letter substitution ('l', 'r'), cannot complete a
/// pattern (no pattern ends in it), is not an 'n', and is neither
/// whitespace nor punctuation, so it triggers no insertion.
pub open spec fn spec_inert(b: u8) -> bool {
    &&& 97 <= b <= 122
    &&& b != 100 && b != 101 && b != 102 && b != 108 && b != 110 && b != 114 && b != 116 && b
        != 119
}

/// Every byte of the stream is inert.
pub open spec fn all_inert(s: Seq<u8>) -> bool {
    forall|i: int| 0 <= i < s.len() ==> spec_inert(#[trigger] s[i])
}

/// Every byte is inert or a padding zero (the shape of a padded block).
pub open spec fn all_inert_or_zero(s: Seq<u8>) -> bool {
    forall|i: int| 0 <= i < s.len() ==> spec_inert(#[trigger] s[i]) || s[i] == 0
}

/// Feeding an inert byte completes no pattern: every pattern's last
/// byte is one the inert set excludes, in either case.
proof fn lemma_inert_no_match(h: Seq<u8>)
    requires
        h.len() >= 1,
        spec_inert(h[h.len() - 1]),
    ensures
        spec_find_match(h) is None,
{
    lemma_patterns_wf();
    assert(forall|p: u8| 97 <= p <= 122 ==> 65 <= #[trigger] (p ^ 0x20) <= 90) by (bit_vector);
    let c = h[h.len() - 1];
    assert forall|i: int| 0 <= i < 8 implies !spec_pattern_matched(h, i) by {
        if spec_pattern_matched(h, i) {
            let ps = spec_patterns()[i];
            let len = ps.len() as int;
            assert(spec_state_bit(h, i, 15));
            assert(crate::bitap::spec_accepts(ps[len - 1], h[h.len() - len + (len - 1)]));
            if i == 0 {
                assert(ps[4] == 108u8);
            } else if i == 1 {
                assert(ps[3] == 101u8);
            } else if i == 2 {
                assert(ps[4] == 102u8);
            } else if i == 3 {
                assert(ps[3] == 101u8);
            } else if i == 4 {
                assert(ps[5] == 100u8);
            } else if i == 5 {
                assert(ps[3] == 116u8);
            } else if i == 6 {
                assert(ps[3] == 119u8);
            } else {
                assert(ps[3] == 119u8);
            }
            assert(false);
        }
    }
    lemma_find_match_skip(h, 8);
}

/// The substitution pass leaves an inert stream unchanged, and the
/// matcher never resets.
proof fn lemma_substitute_inert(s: Seq<u8>)
    requires
        all_inert(s),
    ensures
        spec_substitute_fold(s) == (s, s, Seq::<crate::passes::SubMatchRec>::empty()),
    decreases s.len(),
{
    if s.len() == 0 {
        assert(s =~= Seq::<u8>::empty());
    } else {
        let prefix = s.drop_last();
        assert(all_inert(prefix)) by {
            assert forall|i: int| 0 <= i < prefix.len() implies spec_inert(
                #[trigger] prefix[i],
            ) by {
                assert(prefix[i] == s[i]);
            }
        }
        lemma_substitute_inert(prefix);
        let c = s.last();
        assert(prefix.push(c) =~= s);
        lemma_inert_no_match(s);
    }
}

/// Within a padded inert block, no nya-ification position triggers, so
/// each prefix of the block passes through unchanged.
proof fn lemma_nya_block_inert(b: Seq<u8>, k: int)
    requires
        b.len() == 16,
        all_inert_or_zero(b),
        0 <= k <= 16,
    ensures
        spec_nya_block_upto(b, k) == b.take(k),
    decreases k,
{
    if k > 0 {
        lemma_nya_block_inert(b, k - 1);
        assert(!spec_nya_trigger(b, k - 1));
        assert(b.take(k) =~= b.take(k - 1) + seq![b[k - 1]]);
    } else {
        assert(b.take(0) =~= Seq::<u8>::empty());
    }
}

/// The nya-ification pass leaves a padded inert stream unchanged.
proof fn lemma_nya_cat_inert(p: Seq<u8>, nb: int)
    requires
        all_inert_or_zero(p),
        0 <= 16 * nb <= p.len(),
    ensures
        spec_nya_cat(p, nb) == p.take(16 * nb),
    decreases nb,
{
    if nb > 0 {
        lemma_nya_cat_inert(p, nb - 1);
        let b = spec_block(p, nb - 1);
        assert(all_inert_or_zero(b)) by {
            assert forall|i: int| 0 <= i < b.len() implies spec_inert(#[trigger] b[i]) || b[i]
                == 0 by {
                assert(b[i] == p[16 * (nb - 1) + i]);
            }
        }
        lemma_nya_block_inert(b, 16);
        assert(b.take(16) =~= b);
        assert(p.take(16 * nb) =~= p.take(16 * (nb - 1)) + b);
    } else {
        assert(p.take(0) =~= Seq::<u8>::empty());
    }
}

/// No stuttering position triggers in a padded inert block.
proof fn lemma_stutter_none_inert(b: Seq<u8>, k: int)
    requires
        b.len() == 16,
        all_inert_or_zero(b),
        0 <= k,
    ensures
        spec_first_stutter_from(b, k) is None,
    decreases 16 - k,
{
    if k < 16 {
        assert(!spec_stutter_trigger(b, k));
        lemma_stutter_none_inert(b, k + 1);
    }
}

/// The letter substitution maps an inert or zero byte to itself.
proof fn lemma_letter_sub_inert(b: u8)
    requires
        spec_inert(b) || b == 0,
    ensures
        spec_letter_sub(b) == b,
{
    assert(forall|x: u8| 97 <= x <= 122 ==> #[trigger] (x | 0x20) == x) by (bit_vector);
}

/// The stutter pass leaves a padded inert stream unchanged and draws no
/// random bits.
proof fn lemma_stutter_cat_inert(p: Seq<u8>, nb: int, g: XorShift32)
    requires
        all_inert_or_zero(p),
        0 <= 16 * nb <= p.len(),
    ensures
        spec_stutter_cat(p, nb, g) == (p.take(16 * nb), g),
    decreases nb,
{
    if nb > 0 {
        lemma_stutter_cat_inert(p, nb - 1, g);
        let b = spec_block(p, nb - 1);
        assert(all_inert_or_zero(b)) by {
            assert forall|i: int| 0 <= i < b.len() implies spec_inert(#[trigger] b[i]) || b[i]
                == 0 by {
                assert(b[i] == p[16 * (nb - 1) + i]);
            }
        }
        lemma_stutter_none_inert(b, 1);
        assert(spec_mapped_block(b) =~= b) by {
            assert forall|i: int| 0 <= i < 16 implies spec_mapped_block(b)[i] == b[i] by {
                lemma_letter_sub_inert(b[i]);
            }
        }
        assert(p.take(16 * nb) =~= p.take(16 * (nb - 1)) + b);
    } else {
        assert(p.take(0) =~= Seq::<u8>::empty());
    }
}

/// No emoji position triggers in a padded inert block.
proof fn lemma_emoji_none_inert(b: Seq<u8>, k: int)
    requires
        b.len() == 16,
        all_inert_or_zero(b),
        0 <= k,
    ensures
        spec_first_emoji_from(b, k) is None,
    decreases 15 - k,
{
    if k < 15 {
        assert(!spec_emoji_trigger(b, k));
        lemma_emoji_none_inert(b, k + 1);
    }
}

/// The emoji pass leaves a padded inert stream unchanged and draws no
/// random bits.
proof fn lemma_emoji_cat_inert(p: Seq<u8>, nb: int, g: XorShift32)
    requires
        all_inert_or_zero(p),
        0 <= 16 * nb <= p.len(),
    ensures
        spec_emoji_cat(p, nb, g) == (p.take(16 * nb), g),
    decreases nb,
{
    if nb > 0 {
        lemma_emoji_cat_inert(p, nb - 1, g);
        let b = spec_block(p, nb - 1);
        assert(all_inert_or_zero(b)) by {
            assert forall|i: int| 0 <= i < b.len() implies spec_inert(#[trigger] b[i]) || b[i]
                == 0 by {
                assert(b[i] == p[16 * (nb - 1) + i]);
            }
        }
        lemma_emoji_none_inert(b, 0);
        assert(spec_emoji_block(b, spec_emoji_cat(p, nb - 1, g).1).0 == b);
        assert(p.take(16 * nb) =~= p.take(16 * (nb - 1)) + b);
    } else {
        assert(p.take(0) =~= Seq::<u8>::empty());
    }
}

/// The padded form of an inert stream is inert up to zeros, and its
/// length is a whole number of blocks.
proof fn lemma_pad16_inert(s: Seq<u8>)
    requires
        all_inert(s),
    ensures
        all_inert_or_zero(spec_pad16(s)),
        spec_pad16(s).len() == spec_round_up16(s.len() as int),
        16 * (spec_pad16(s).len() as int / 16) == spec_pad16(s).len(),
        spec_pad16(s).take(s.len() as int) == s,
{
    lemma_round_up16_bounds(s.len() as int);
    let p = spec_pad16(s);
    assert forall|i: int| 0 <= i < p.len() implies spec_inert(#[trigger] p[i]) || p[i] == 0 by {
        if i < s.len() {
            assert(p[i] == s[i]);
        }
    }
    assert(16 * (p.len() as int / 16) == p.len()) by (nonlinear_arith)
        requires
            p.len() as int % 16 == 0,
    ;
    assert(p.take(s.len() as int) =~= s);
}

/// The whole transform leaves an inert stream unchanged.
pub proof fn lemma_transform_inert(s: Seq<u8>)
    requires
        all_inert(s),
    ensures
        spec_transform(s) == s,
{
    let g0 = crate::rng::spec_seeded(crate::passes::spec_seed());
    lemma_substitute_inert(s);
    assert(spec_substitute(s) == s);
    lemma_pad16_inert(s);
    let p = spec_pad16(s);
    let nb = p.len() as int / 16;
    lemma_nya_cat_inert(p, nb);
    assert(p.take(16 * nb) =~= p);
    assert(spec_nya_pass(s) == p.take(p.len() - (p.len() - s.len())));
    assert(p.take(p.len() - (p.len() - s.len())) == s);
    lemma_stutter_cat_inert(p, nb, g0);
    assert(spec_stutter_pass(s, g0) == (s, g0));
    lemma_emoji_cat_inert(p, nb, g0);
    assert(spec_emoji_pass(s, g0) == (s, g0));
}

/// Chunk-boundary transparency on inert streams: cutting the stream
/// into chunks and transforming each chunk separately yields the same
/// bytes as one transform of the whole stream. On general streams the
/// chunked and the whole-stream transforms may differ — a pattern can
/// straddle a chunk boundary, and each chunk's transform restarts the
/// random generator from the fixed seed — so the law is stated for
/// streams on which no pass rewrites or draws randomness.
pub proof fn lemma_pipeline_transparency(s: Seq<u8>, chunk: int)
    requires
        chunk >= 1,
        all_inert(s),
    ensures
        spec_pipeline(s, chunk) == spec_transform(s),
        spec_pipeline(s, chunk) == s,
    decreases s.len(),
{
    lemma_transform_inert(s);
    if s.len() > chunk {
        let head = s.take(chunk);
        let tail = s.skip(chunk);
        assert(all_inert(head)) by {
            assert forall|i: int| 0 <= i < head.len() implies spec_inert(#[trigger] head[i]) by {
                assert(head[i] == s[i]);
            }
        }
        assert(all_inert(tail)) by {
            assert forall|i: int| 0 <= i < tail.len() implies spec_inert(#[trigger] tail[i]) by {
                assert(tail[i] == s[chunk + i]);
            }
        }
        lemma_transform_inert(head);
        lemma_pipeline_transparency(tail, chunk);
        assert(head + tail =~= s);
    }
}

} // verus!
