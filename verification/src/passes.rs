//! The four single-pass byte-stream rewriters and their composition.
//!
//! Every pass consumes a byte buffer of known logical length together
//! with an output buffer of sufficient capacity, writes its rewritten
//! stream at the front of the output buffer, and returns the new logical
//! length. The three block passes work on 16-byte blocks of the
//! zero-padded input; the substitution pass is byte-by-byte and never
//! reads past the logical length.

use vstd::prelude::*;

use crate::bitap::{spec_find_match, spec_is_ascii_alpha, Bitap8x16};
use crate::rng::{spec_gen_bits, spec_gen_bool, XorShift32};
use crate::spec_round_up16;
use crate::tables::{lemma_lut_wf, spec_lut, spec_patterns, spec_replacements};

verus! {

/// Whitespace, for the insertion triggers: space, tab or newline.
pub open spec fn spec_is_ws(b: u8) -> bool {
    b == 32 || b == 9 || b == 10
}

/// The letter 'n' in either case.
pub open spec fn spec_is_n(b: u8) -> bool {
    (b | 0x20) == 110
}

/// Sentence punctuation that attracts an emoji: '.', ',' or '!'.
pub open spec fn spec_is_punct(b: u8) -> bool {
    b == 46 || b == 44 || b == 33
}

/// The per-byte letter substitution: letters are lower-cased, and 'l' and
/// 'r' (in either case) become 'w'; other bytes pass through.
pub open spec fn spec_letter_sub(b: u8) -> u8 {
    if spec_is_ascii_alpha(b) {
        let low = b | 0x20;
        if low == 108 || low == 114 {
            119u8
        } else {
            low
        }
    } else {
        b
    }
}

/// `s` zero-padded to the next multiple of 16.
pub open spec fn spec_pad16(s: Seq<u8>) -> Seq<u8> {
    s + Seq::new((spec_round_up16(s.len() as int) - s.len()) as nat, |i: int| 0u8)
}

/// Block `k` (16 bytes) of the padded stream `p`.
pub open spec fn spec_block(p: Seq<u8>, k: int) -> Seq<u8> {
    p.subrange(16 * k, 16 * k + 16)
}

// ---------------------------------------------------------------------
// Zero padding.
// ---------------------------------------------------------------------
/// Zero the bytes between the logical length and the next multiple of
/// 16, leaving everything else unchanged.
pub fn pad_zeros(bytes: &mut Vec<u8>, len: usize)
    requires
        spec_round_up16(len as int) <= old(bytes).len(),
    ensures
        final(bytes).len() == old(bytes).len(),
        forall|j: int|
            0 <= j < final(bytes).len() && !(len <= j < spec_round_up16(len as int))
                ==> final(bytes)@[j] == old(bytes)@[j],
        forall|j: int| len <= j < spec_round_up16(len as int) ==> final(bytes)@[j] == 0,
        final(bytes)@.take(len as int) == old(bytes)@.take(len as int),
{
    proof {
        crate::lemma_round_up16_bounds(len as int);
    }
    let end = round_up16_exec(len);
    let mut i = len;
    while i < end
        invariant
            len <= i <= end,
            end == spec_round_up16(len as int),
            end <= bytes.len(),
            bytes.len() == old(bytes).len(),
            forall|j: int|
                0 <= j < bytes.len() && !(len <= j < i) ==> bytes@[j] == old(bytes)@[j],
            forall|j: int| len <= j < i ==> bytes@[j] == 0,
        decreases end - i,
    {
        bytes[i] = 0;
        i += 1;
    }
    proof {
        assert(final(bytes)@.take(len as int) =~= old(bytes)@.take(len as int));
    }
}

/// Executable rounding helper shared by the passes.
fn round_up16_exec(n: usize) -> (r: usize)
    requires
        n + 15 <= usize::MAX,
    ensures
        r == spec_round_up16(n as int),
        n <= r < n + 16,
        r % 16 == 0,
{
    crate::round_up16(n)
}

// ---------------------------------------------------------------------
// Nya-ification: insert a 'y' after every 'n' that follows whitespace.
// ---------------------------------------------------------------------
/// Position `k` of a block gets a 'y' inserted after it when it holds an
/// 'n' (either case) preceded by whitespace inside the same block.
pub open spec fn spec_nya_trigger(b: Seq<u8>, k: int) -> bool {
    1 <= k < 16 && spec_is_ws(b[k - 1]) && spec_is_n(b[k])
}

/// The output for the first `k` positions of one block: every position
/// is copied, and triggering positions are followed by a 'y'.
pub open spec fn spec_nya_block_upto(b: Seq<u8>, k: int) -> Seq<u8>
    decreases k,
{
    if k <= 0 {
        Seq::empty()
    } else {
        spec_nya_block_upto(b, k - 1) + (if spec_nya_trigger(b, k - 1) {
            seq![b[k - 1], 121u8]
        } else {
            seq![b[k - 1]]
        })
    }
}

/// One whole block, nya-ified.
pub open spec fn spec_nya_block(b: Seq<u8>) -> Seq<u8> {
    spec_nya_block_upto(b, 16)
}

/// The first `nb` blocks of the padded stream, nya-ified and
/// concatenated.
pub open spec fn spec_nya_cat(p: Seq<u8>, nb: int) -> Seq<u8>
    decreases nb,
{
    if nb <= 0 {
        Seq::empty()
    } else {
        spec_nya_cat(p, nb - 1) + spec_nya_block(spec_block(p, nb - 1))
    }
}

/// The whole pass: pad, rewrite each block, and cut the trailing
/// padding back off (insertions only ever happen at positions that hold
/// text, so the padding comes out unchanged at the very end).
pub open spec fn spec_nya_pass(s: Seq<u8>) -> Seq<u8> {
    let p = spec_pad16(s);
    let full = spec_nya_cat(p, p.len() as int / 16);
    full.take(full.len() - (p.len() - s.len()))
}

/// Block output lengths: each position yields one or two bytes.
proof fn lemma_nya_block_upto_len(b: Seq<u8>, k: int)
    requires
        0 <= k <= 16,
    ensures
        k <= spec_nya_block_upto(b, k).len() <= 2 * k,
    decreases k,
{
    if k > 0 {
        lemma_nya_block_upto_len(b, k - 1);
    }
}

/// Concatenated output lengths: each block yields 16 to 32 bytes.
proof fn lemma_nya_cat_len(p: Seq<u8>, nb: int)
    requires
        nb >= 0,
    ensures
        16 * nb <= spec_nya_cat(p, nb).len() <= 32 * nb,
    decreases nb,
{
    if nb > 0 {
        lemma_nya_cat_len(p, nb - 1);
        lemma_nya_block_upto_len(spec_block(p, nb - 1), 16);
    }
}

/// The nya-ification pass: within each 16-byte block, every 'n' (either
/// case) that directly follows whitespace gets a 'y' inserted after it;
/// unlike the stutter pass, every qualifying position of a block is
/// rewritten.
pub fn nya_ify(in_bytes: &Vec<u8>, len: usize, out_bytes: &mut Vec<u8>) -> (ret: usize)
    requires
        len <= in_bytes.len(),
        spec_round_up16(len as int) <= in_bytes.len(),
        forall|j: int| len <= j < spec_round_up16(len as int) ==> in_bytes@[j] == 0,
        old(out_bytes).len() >= 2 * spec_round_up16(len as int),
    ensures
        final(out_bytes).len() == old(out_bytes).len(),
        ret == spec_nya_pass(in_bytes@.take(len as int)).len(),
        final(out_bytes)@.take(ret as int) == spec_nya_pass(in_bytes@.take(len as int)),
        ret <= 2 * spec_round_up16(len as int),
        ret <= 16 * spec_round_up16(len as int),
        len <= ret,
{
    proof {
        crate::lemma_round_up16_bounds(len as int);
    }
    let iter_len = round_up16_exec(len);
    let nb = iter_len / 16;
    let ghost s = in_bytes@.take(len as int);
    let ghost p = spec_pad16(s);
    proof {
        assert(p =~= in_bytes@.take(iter_len as int));
        lemma_nya_cat_len(p, nb as int);
    }
    let mut cursor: usize = 0;
    let mut blk: usize = 0;
    while blk < nb
        invariant
            iter_len == spec_round_up16(len as int),
            iter_len % 16 == 0,
            iter_len <= in_bytes.len(),
            nb == iter_len / 16,
            blk <= nb,
            p == spec_pad16(s),
            s == in_bytes@.take(len as int),
            p == in_bytes@.take(iter_len as int),
            p.len() == iter_len,
            out_bytes.len() == old(out_bytes).len(),
            out_bytes.len() >= 2 * iter_len,
            cursor == spec_nya_cat(p, blk as int).len(),
            out_bytes@.take(cursor as int) == spec_nya_cat(p, blk as int),
            cursor <= 32 * blk,
        decreases nb - blk,
    {
        let base = blk * 16;
        let ghost b = spec_block(p, blk as int);
        proof {
            lemma_nya_cat_len(p, blk as int);
            assert(16 * blk <= cursor);
        }
        let mut k: usize = 0;
        let ghost cat_prev = spec_nya_cat(p, blk as int);
        while k < 16
            invariant
                k <= 16,
                iter_len == spec_round_up16(len as int),
                iter_len % 16 == 0,
                iter_len <= in_bytes.len(),
                nb == iter_len / 16,
                blk < nb,
                base == blk * 16,
                b == spec_block(p, blk as int),
                p == in_bytes@.take(iter_len as int),
                p.len() == iter_len,
                out_bytes.len() == old(out_bytes).len(),
                out_bytes.len() >= 2 * iter_len,
                cat_prev == spec_nya_cat(p, blk as int),
                cursor == cat_prev.len() + spec_nya_block_upto(b, k as int).len(),
                out_bytes@.take(cursor as int) == cat_prev + spec_nya_block_upto(b, k as int),
                cat_prev.len() <= 32 * blk,
            decreases 16 - k,
        {
            proof {
                lemma_nya_block_upto_len(b, k as int);
                assert(b[k as int] == in_bytes@[base + k]);
                if k >= 1 {
                    assert(b[k as int - 1] == in_bytes@[base + k - 1]);
                }
            }
            let c = in_bytes[base + k];
            let trigger = k >= 1 && {
                let prev = in_bytes[base + k - 1];
                (prev == 32 || prev == 9 || prev == 10) && (c | 0x20) == 110
            };
            assert(trigger == spec_nya_trigger(b, k as int));
            let ghost pre = out_bytes@.take(cursor as int);
            out_bytes[cursor] = c;
            cursor += 1;
            if trigger {
                out_bytes[cursor] = 121;
                cursor += 1;
                proof {
                    assert(out_bytes@.take(cursor as int) =~= pre + seq![b[k as int], 121u8]);
                }
            } else {
                proof {
                    assert(out_bytes@.take(cursor as int) =~= pre + seq![b[k as int]]);
                }
            }
            k += 1;
        }
        proof {
            assert(cat_prev + spec_nya_block_upto(b, 16) == spec_nya_cat(p, blk as int + 1));
            lemma_nya_cat_len(p, blk as int + 1);
        }
        blk += 1;
    }
    proof {
        assert(cursor == spec_nya_cat(p, nb as int).len());
        lemma_nya_cat_len(p, nb as int);
    }
    let pad = iter_len - len;
    let ret = cursor - pad;
    proof {
        let full = spec_nya_cat(p, nb as int);
        assert(spec_nya_pass(s) == full.take(full.len() - (p.len() - s.len())));
        assert(final(out_bytes)@.take(ret as int) =~= full.take(
            full.len() - (p.len() - s.len()),
        ));
    }
    ret
}


/// Copy `src[from..to]` to `out[dst..]`, leaving every other byte of
/// `out` unchanged.
fn write_bytes(out: &mut Vec<u8>, dst: usize, src: &[u8], from: usize, to: usize)
    requires
        from <= to <= src@.len(),
        dst + (to - from) <= old(out).len(),
    ensures
        final(out).len() == old(out).len(),
        forall|p: int|
            0 <= p < final(out).len() && !(dst <= p < dst + (to - from)) ==> final(out)@[p]
                == old(out)@[p],
        forall|p: int| 0 <= p < to - from ==> final(out)@[dst + p] == #[trigger] src@[from + p],
{
    let mut k: usize = 0;
    while k < to - from
        invariant
            k <= to - from,
            from <= to <= src@.len(),
            dst + (to - from) <= out.len(),
            out.len() == old(out).len(),
            forall|p: int|
                0 <= p < out.len() && !(dst <= p < dst + k) ==> out@[p] == old(out)@[p],
            forall|p: int| 0 <= p < k ==> out@[dst + p] == #[trigger] src@[from + p],
        decreases to - from - k,
    {
        let v = src[from + k];
        out[dst + k] = v;
        k += 1;
    }
}

// ---------------------------------------------------------------------
// Letter substitution and stutters.
// ---------------------------------------------------------------------
/// A block, letter-substituted byte by byte.
pub open spec fn spec_mapped_block(b: Seq<u8>) -> Seq<u8> {
    Seq::new(16, |k: int| spec_letter_sub(b[k]))
}

/// Position `k` of a block starts a word that may stutter: a letter
/// preceded by whitespace inside the same block.
pub open spec fn spec_stutter_trigger(b: Seq<u8>, k: int) -> bool {
    1 <= k < 16 && spec_is_ws(b[k - 1]) && spec_is_ascii_alpha(b[k])
}

/// The first stuttering position at or after `k`, if any.
pub open spec fn spec_first_stutter_from(b: Seq<u8>, k: int) -> Option<int>
    decreases 16 - k,
{
    if k < 0 || k >= 16 {
        None
    } else if spec_stutter_trigger(b, k) {
        Some(k)
    } else {
        spec_first_stutter_from(b, k + 1)
    }
}

/// One block: all letters are substituted; at the first stuttering
/// position (if any) one random bit decides whether the substituted
/// first letter and a hyphen are inserted before the word. Only one
/// stutter per block is considered, and the random bit is drawn whether
/// or not it says to insert.
pub open spec fn spec_stutter_block(b: Seq<u8>, g: XorShift32) -> (Seq<u8>, XorShift32) {
    let mb = spec_mapped_block(b);
    match spec_first_stutter_from(b, 1) {
        None => (mb, g),
        Some(k) => {
            let (bit, g2) = spec_gen_bool(g);
            if bit {
                (mb.take(k) + seq![mb[k], 45u8] + mb.skip(k), g2)
            } else {
                (mb, g2)
            }
        },
    }
}

/// The first `nb` blocks, rewritten and concatenated, threading the
/// generator through the blocks in order.
pub open spec fn spec_stutter_cat(p: Seq<u8>, nb: int, g: XorShift32) -> (Seq<u8>, XorShift32)
    decreases nb,
{
    if nb <= 0 {
        (Seq::empty(), g)
    } else {
        let (o, g1) = spec_stutter_cat(p, nb - 1, g);
        let (ob, g2) = spec_stutter_block(spec_block(p, nb - 1), g1);
        (o + ob, g2)
    }
}

/// The whole pass, with the trailing padding cut back off.
pub open spec fn spec_stutter_pass(s: Seq<u8>, g: XorShift32) -> (Seq<u8>, XorShift32) {
    let p = spec_pad16(s);
    let (full, g2) = spec_stutter_cat(p, p.len() as int / 16, g);
    (full.take(full.len() - (p.len() - s.len())), g2)
}

/// A found stuttering position is a real trigger inside the block.
proof fn lemma_first_stutter_bounds(b: Seq<u8>, k: int)
    requires
        0 <= k,
    ensures
        spec_first_stutter_from(b, k) matches Some(j) ==> k <= j < 16 && spec_stutter_trigger(
            b,
            j,
        ),
    decreases 16 - k,
{
    if 0 <= k < 16 && !spec_stutter_trigger(b, k) {
        lemma_first_stutter_bounds(b, k + 1);
    }
}

/// Each block yields 16 or 18 bytes.
proof fn lemma_stutter_block_len(b: Seq<u8>, g: XorShift32)
    ensures
        16 <= spec_stutter_block(b, g).0.len() <= 18,
{
    lemma_first_stutter_bounds(b, 1);
}

/// Concatenated output lengths.
proof fn lemma_stutter_cat_len(p: Seq<u8>, nb: int, g: XorShift32)
    requires
        nb >= 0,
    ensures
        16 * nb <= spec_stutter_cat(p, nb, g).0.len() <= 32 * nb,
    decreases nb,
{
    if nb > 0 {
        lemma_stutter_cat_len(p, nb - 1, g);
        lemma_stutter_block_len(spec_block(p, nb - 1), spec_stutter_cat(p, nb - 1, g).1);
    }
}

/// The letter substitution, executably.
fn letter_sub(b: u8) -> (r: u8)
    ensures
        r == spec_letter_sub(b),
{
    if (65 <= b && b <= 90) || (97 <= b && b <= 122) {
        let low = b | 0x20;
        if low == 108 || low == 114 {
            119
        } else {
            low
        }
    } else {
        b
    }
}

/// Scan one block for its first stuttering position.
fn find_first_stutter(in_bytes: &Vec<u8>, base: usize) -> (r: Option<usize>)
    requires
        base + 16 <= in_bytes.len(),
    ensures
        ({
            let b = in_bytes@.subrange(base as int, base as int + 16);
            match r {
                None => spec_first_stutter_from(b, 1) is None,
                Some(k) => 1 <= k < 16 && spec_first_stutter_from(b, 1) == Some(k as int),
            }
        }),
{
    let ghost b = in_bytes@.subrange(base as int, base as int + 16);
    let mut k: usize = 1;
    while k < 16
        invariant
            1 <= k <= 16,
            base + 16 <= in_bytes.len(),
            b == in_bytes@.subrange(base as int, base as int + 16),
            spec_first_stutter_from(b, 1) == spec_first_stutter_from(b, k as int),
        decreases 16 - k,
    {
        let prev = in_bytes[base + k - 1];
        let cur = in_bytes[base + k];
        proof {
            assert(b[k as int - 1] == in_bytes@[base + k - 1]);
            assert(b[k as int] == in_bytes@[base + k]);
        }
        if (prev == 32 || prev == 9 || prev == 10) && ((65 <= cur && cur <= 90) || (97 <= cur
            && cur <= 122)) {
            assert(spec_stutter_trigger(b, k as int));
            return Some(k);
        }
        assert(!spec_stutter_trigger(b, k as int));
        k += 1;
    }
    None
}

/// The letter-substitution and stutter pass: within each 16-byte block,
/// letters are lower-cased with 'l'/'r' becoming 'w', and at most one
/// stutter ("x-" before a word) is inserted, decided by one random bit
/// per qualifying block.
pub fn replace_and_stutter(
    rng: &mut XorShift32,
    in_bytes: &Vec<u8>,
    len: usize,
    out_bytes: &mut Vec<u8>,
) -> (ret: usize)
    requires
        len <= in_bytes.len(),
        spec_round_up16(len as int) <= in_bytes.len(),
        forall|j: int| len <= j < spec_round_up16(len as int) ==> in_bytes@[j] == 0,
        old(out_bytes).len() >= 2 * spec_round_up16(len as int),
    ensures
        final(out_bytes).len() == old(out_bytes).len(),
        ({
            let (o, g) = spec_stutter_pass(in_bytes@.take(len as int), *old(rng));
            &&& ret == o.len()
            &&& final(out_bytes)@.take(ret as int) == o
            &&& *final(rng) == g
        }),
        ret <= 2 * spec_round_up16(len as int),
        ret <= 16 * spec_round_up16(len as int),
        len <= ret,
{
    proof {
        crate::lemma_round_up16_bounds(len as int);
    }
    let iter_len = round_up16_exec(len);
    let nb = iter_len / 16;
    let ghost s = in_bytes@.take(len as int);
    let ghost p = spec_pad16(s);
    let ghost g0 = *rng;
    proof {
        assert(p =~= in_bytes@.take(iter_len as int));
        lemma_stutter_cat_len(p, nb as int, g0);
    }
    let mut cursor: usize = 0;
    let mut blk: usize = 0;
    while blk < nb
        invariant
            iter_len == spec_round_up16(len as int),
            iter_len % 16 == 0,
            iter_len <= in_bytes.len(),
            nb == iter_len / 16,
            blk <= nb,
            p == spec_pad16(s),
            s == in_bytes@.take(len as int),
            p == in_bytes@.take(iter_len as int),
            p.len() == iter_len,
            out_bytes.len() == old(out_bytes).len(),
            out_bytes.len() >= 2 * iter_len,
            g0 == *old(rng),
            cursor == spec_stutter_cat(p, blk as int, g0).0.len(),
            out_bytes@.take(cursor as int) == spec_stutter_cat(p, blk as int, g0).0,
            *rng == spec_stutter_cat(p, blk as int, g0).1,
            cursor <= 32 * blk,
        decreases nb - blk,
    {
        let base = blk * 16;
        let ghost b = spec_block(p, blk as int);
        let ghost g_in = *rng;
        let ghost pre = out_bytes@.take(cursor as int);
        proof {
            lemma_stutter_cat_len(p, blk as int, g0);
            assert(b =~= in_bytes@.subrange(base as int, base as int + 16));
        }
        // Substitute the letters of this block into a scratch block.
        let mut mb: [u8; 16] = [0u8; 16];
        let mut k: usize = 0;
        while k < 16
            invariant
                k <= 16,
                blk < nb,
                base == blk * 16,
                iter_len <= in_bytes.len(),
                nb == iter_len / 16,
                p == in_bytes@.take(iter_len as int),
                p.len() == iter_len,
                b == spec_block(p, blk as int),
                forall|k2: int| 0 <= k2 < k ==> mb@[k2] == spec_letter_sub(b[k2]),
            decreases 16 - k,
        {
            proof {
                assert(b[k as int] == in_bytes@[base + k]);
            }
            let c = letter_sub(in_bytes[base + k]);
            mb[k] = c;
            k += 1;
        }
        proof {
            assert(mb@ =~= spec_mapped_block(b));
        }
        let stutter = find_first_stutter(in_bytes, base);
        proof {
            assert(in_bytes@.subrange(base as int, base as int + 16) == b);
        }
        let do_insert: Option<usize> = match stutter {
            None => None,
            Some(k0) => {
                let bit = rng.gen_bool();
                if bit {
                    Some(k0)
                } else {
                    None
                }
            },
        };
        let start = cursor;
        let mbs = mb.as_slice();
        match do_insert {
            None => {
                // The block passes through mapped, without a stutter.
                write_bytes(out_bytes, start, mbs, 0, 16);
                cursor = start + 16;
                proof {
                    assert forall|q: int| 0 <= q < 16 implies out_bytes@[start + q] == mb@[q] by {
                        assert(out_bytes@[start as int + q] == mbs@[0 + q]);
                    }
                    assert(out_bytes@.take(cursor as int) =~= pre + spec_stutter_block(
                        b,
                        g_in,
                    ).0);
                }
            },
            Some(k0) => {
                // Insert the word's substituted first letter and a hyphen
                // before the word, then re-emit the rest of the block.
                write_bytes(out_bytes, start, mbs, 0, k0 + 1);
                out_bytes[start + k0 + 1] = 45;
                write_bytes(out_bytes, start + k0 + 2, mbs, k0, 16);
                cursor = start + 18;
                proof {
                    assert forall|q: int| 0 <= q < k0 + 1 implies out_bytes@[start + q]
                        == mb@[q] by {
                        assert(mbs@[0 + q] == mb@[q]);
                    }
                    assert forall|q: int| 0 <= q < 16 - k0 implies #[trigger] out_bytes@[start
                        + k0 + 2 + q] == mb@[k0 + q] by {
                        assert(out_bytes@[start + k0 + 2 + q] == mbs@[k0 as int + q]);
                    }
                    assert(out_bytes@[start as int + k0 + 1] == 45);
                    assert(spec_stutter_block(b, g_in).0 == mb@.take(k0 as int) + seq![
                        mb@[k0 as int],
                        45u8,
                    ] + mb@.skip(k0 as int));
                    let sb = spec_stutter_block(b, g_in).0;
                    assert forall|q: int| 0 <= q < cursor implies out_bytes@[q] == (pre + sb)[
                    q] by {
                        if q < start {
                            assert(out_bytes@[q] == pre[q]);
                        } else if q < start + k0 + 1 {
                            let w = q - start;
                            assert(out_bytes@[start + w] == mb@[w]);
                        } else if q == start + k0 + 1 {
                            assert(out_bytes@[start as int + k0 + 1] == 45);
                        } else {
                            let w = q - (start + k0 + 2);
                            assert(out_bytes@[start + k0 + 2 + w] == mb@[k0 + w]);
                        }
                    }
                    assert(out_bytes@.take(cursor as int) =~= pre + sb);
                }
            },
        }
        proof {
            assert(pre + spec_stutter_block(b, g_in).0 == spec_stutter_cat(p, blk as int + 1, g0).0
                && *rng == spec_stutter_cat(p, blk as int + 1, g0).1);
            lemma_stutter_cat_len(p, blk as int + 1, g0);
        }
        blk += 1;
    }
    proof {
        lemma_stutter_cat_len(p, nb as int, g0);
    }
    let pad = iter_len - len;
    let ret = cursor - pad;
    proof {
        let full = spec_stutter_cat(p, nb as int, g0).0;
        assert(final(out_bytes)@.take(ret as int) =~= full.take(
            full.len() - (p.len() - s.len()),
        ));
    }
    ret
}

// ---------------------------------------------------------------------
// Emoji insertion.
// ---------------------------------------------------------------------
/// Position `k` of a block attracts an emoji: punctuation followed by
/// whitespace, with no second punctuation mark on either side (no emoji
/// after an ellipsis or "?!").
pub open spec fn spec_emoji_trigger(b: Seq<u8>, k: int) -> bool {
    &&& 0 <= k < 15
    &&& spec_is_punct(b[k])
    &&& spec_is_ws(b[k + 1])
    &&& !(k >= 1 && spec_is_punct(b[k - 1]))
    &&& !spec_is_punct(b[k + 1])
}

/// The first emoji position at or after `k`, if any.
pub open spec fn spec_first_emoji_from(b: Seq<u8>, k: int) -> Option<int>
    decreases 15 - k,
{
    if k < 0 || k >= 15 {
        None
    } else if spec_emoji_trigger(b, k) {
        Some(k)
    } else {
        spec_first_emoji_from(b, k + 1)
    }
}

/// One block: at the first emoji position (if any) a uniformly random
/// lexicon entry is inserted right after the punctuation mark. Only one
/// insertion per block is considered.
pub open spec fn spec_emoji_block(b: Seq<u8>, g: XorShift32) -> (Seq<u8>, XorShift32) {
    match spec_first_emoji_from(b, 0) {
        None => (b, g),
        Some(k) => {
            let (r, g2) = spec_gen_bits(g, 5);
            (b.take(k + 1) + spec_lut()[r as int] + b.skip(k + 1), g2)
        },
    }
}

/// The first `nb` blocks, rewritten and concatenated.
pub open spec fn spec_emoji_cat(p: Seq<u8>, nb: int, g: XorShift32) -> (Seq<u8>, XorShift32)
    decreases nb,
{
    if nb <= 0 {
        (Seq::empty(), g)
    } else {
        let (o, g1) = spec_emoji_cat(p, nb - 1, g);
        let (ob, g2) = spec_emoji_block(spec_block(p, nb - 1), g1);
        (o + ob, g2)
    }
}

/// The whole pass, with the trailing padding cut back off.
pub open spec fn spec_emoji_pass(s: Seq<u8>, g: XorShift32) -> (Seq<u8>, XorShift32) {
    let p = spec_pad16(s);
    let (full, g2) = spec_emoji_cat(p, p.len() as int / 16, g);
    (full.take(full.len() - (p.len() - s.len())), g2)
}

/// A found emoji position is a real trigger inside the block.
proof fn lemma_first_emoji_bounds(b: Seq<u8>, k: int)
    requires
        0 <= k,
    ensures
        spec_first_emoji_from(b, k) matches Some(j) ==> k <= j < 15 && spec_emoji_trigger(b, j),
    decreases 15 - k,
{
    if 0 <= k < 15 && !spec_emoji_trigger(b, k) {
        lemma_first_emoji_bounds(b, k + 1);
    }
}

/// Each block yields 16 to 32 bytes.
proof fn lemma_emoji_block_len(b: Seq<u8>, g: XorShift32)
    requires
        b.len() == 16,
    ensures
        16 <= spec_emoji_block(b, g).0.len() <= 32,
{
    lemma_first_emoji_bounds(b, 0);
    lemma_lut_wf();
    crate::rng::lemma_gen_bits_bound(g, 5);
    if spec_first_emoji_from(b, 0) is Some {
        let r = spec_gen_bits(g, 5).0;
        assert(1u32 << 5u32 == 32) by (bit_vector);
        assert(1 <= spec_lut()[r as int].len() <= 16);
    }
}

/// Concatenated output lengths.
proof fn lemma_emoji_cat_len(p: Seq<u8>, nb: int, g: XorShift32)
    requires
        nb >= 0,
        16 * nb <= p.len(),
    ensures
        16 * nb <= spec_emoji_cat(p, nb, g).0.len() <= 32 * nb,
    decreases nb,
{
    if nb > 0 {
        lemma_emoji_cat_len(p, nb - 1, g);
        lemma_emoji_block_len(spec_block(p, nb - 1), spec_emoji_cat(p, nb - 1, g).1);
    }
}

/// Scan one block for its first emoji position.
fn find_first_emoji(in_bytes: &Vec<u8>, base: usize) -> (r: Option<usize>)
    requires
        base + 16 <= in_bytes.len(),
    ensures
        ({
            let b = in_bytes@.subrange(base as int, base as int + 16);
            match r {
                None => spec_first_emoji_from(b, 0) is None,
                Some(k) => k < 15 && spec_first_emoji_from(b, 0) == Some(k as int),
            }
        }),
{
    let ghost b = in_bytes@.subrange(base as int, base as int + 16);
    let mut k: usize = 0;
    while k < 15
        invariant
            k <= 15,
            base + 16 <= in_bytes.len(),
            b == in_bytes@.subrange(base as int, base as int + 16),
            spec_first_emoji_from(b, 0) == spec_first_emoji_from(b, k as int),
        decreases 15 - k,
    {
        let cur = in_bytes[base + k];
        let nxt = in_bytes[base + k + 1];
        proof {
            assert(b[k as int] == in_bytes@[base + k]);
            assert(b[k as int + 1] == in_bytes@[base + k + 1]);
            if k >= 1 {
                assert(b[k as int - 1] == in_bytes@[base + k - 1]);
            }
        }
        let cur_punct = cur == 46 || cur == 44 || cur == 33;
        let nxt_ws = nxt == 32 || nxt == 9 || nxt == 10;
        let nxt_punct = nxt == 46 || nxt == 44 || nxt == 33;
        let prev_punct = k >= 1 && {
            let prev = in_bytes[base + k - 1];
            prev == 46 || prev == 44 || prev == 33
        };
        if cur_punct && nxt_ws && !prev_punct && !nxt_punct {
            assert(spec_emoji_trigger(b, k as int));
            return Some(k);
        }
        assert(!spec_emoji_trigger(b, k as int));
        k += 1;
    }
    None
}

/// The lexicon table holds exactly the specified entries.
pub open spec fn lut_matches(lut: Seq<Vec<u8>>) -> bool {
    &&& lut.len() == spec_lut().len()
    &&& forall|i: int| 0 <= i < lut.len() ==> (#[trigger] lut[i])@ == spec_lut()[i]
}

/// The emoji pass: within each 16-byte block, at the first punctuation
/// mark that is followed by whitespace and not part of a punctuation run,
/// one uniformly random lexicon entry is inserted.
#[verifier::rlimit(60)]
pub fn emoji(
    rng: &mut XorShift32,
    lut: &Vec<Vec<u8>>,
    in_bytes: &Vec<u8>,
    len: usize,
    out_bytes: &mut Vec<u8>,
) -> (ret: usize)
    requires
        lut_matches(lut@),
        len <= in_bytes.len(),
        spec_round_up16(len as int) <= in_bytes.len(),
        forall|j: int| len <= j < spec_round_up16(len as int) ==> in_bytes@[j] == 0,
        old(out_bytes).len() >= 2 * spec_round_up16(len as int),
    ensures
        final(out_bytes).len() == old(out_bytes).len(),
        ({
            let (o, g) = spec_emoji_pass(in_bytes@.take(len as int), *old(rng));
            &&& ret == o.len()
            &&& final(out_bytes)@.take(ret as int) == o
            &&& *final(rng) == g
        }),
        ret <= 2 * spec_round_up16(len as int),
        ret <= 16 * spec_round_up16(len as int),
        len <= ret,
{
    proof {
        crate::lemma_round_up16_bounds(len as int);
        lemma_lut_wf();
    }
    let iter_len = round_up16_exec(len);
    let nb = iter_len / 16;
    let ghost s = in_bytes@.take(len as int);
    let ghost p = spec_pad16(s);
    let ghost g0 = *rng;
    proof {
        assert(p =~= in_bytes@.take(iter_len as int));
        lemma_emoji_cat_len(p, nb as int, g0);
    }
    let ibs = in_bytes.as_slice();
    let mut cursor: usize = 0;
    let mut blk: usize = 0;
    while blk < nb
        invariant
            lut_matches(lut@),
            iter_len == spec_round_up16(len as int),
            iter_len % 16 == 0,
            iter_len <= in_bytes.len(),
            nb == iter_len / 16,
            blk <= nb,
            p == spec_pad16(s),
            s == in_bytes@.take(len as int),
            p == in_bytes@.take(iter_len as int),
            p.len() == iter_len,
            ibs@ == in_bytes@,
            out_bytes.len() == old(out_bytes).len(),
            out_bytes.len() >= 2 * iter_len,
            g0 == *old(rng),
            cursor == spec_emoji_cat(p, blk as int, g0).0.len(),
            out_bytes@.take(cursor as int) == spec_emoji_cat(p, blk as int, g0).0,
            *rng == spec_emoji_cat(p, blk as int, g0).1,
            cursor <= 32 * blk,
        decreases nb - blk,
    {
        let base = blk * 16;
        let ghost b = spec_block(p, blk as int);
        let ghost g_in = *rng;
        let ghost pre = out_bytes@.take(cursor as int);
        proof {
            lemma_emoji_cat_len(p, blk as int, g0);
            assert(b =~= in_bytes@.subrange(base as int, base as int + 16));
            assert forall|q: int| 0 <= q < 16 implies b[q] == in_bytes@[base + q] by {}
        }
        let hit = find_first_emoji(in_bytes, base);
        proof {
            assert(in_bytes@.subrange(base as int, base as int + 16) == b);
        }
        let start = cursor;
        match hit {
            None => {
                // The block passes through unchanged.
                write_bytes(out_bytes, start, ibs, base, base + 16);
                cursor = start + 16;
                proof {
                    assert(spec_emoji_block(b, g_in).0 == b);
                    assert forall|q: int| 0 <= q < cursor implies out_bytes@[q] == (pre + b)[
                    q] by {
                        if q < start {
                            assert(out_bytes@[q] == pre[q]);
                        } else {
                            let w = q - start;
                            assert(out_bytes@[start + w] == ibs@[base + w]);
                        }
                    }
                    assert(out_bytes@.take(cursor as int) =~= pre + spec_emoji_block(
                        b,
                        g_in,
                    ).0);
                }
            },
            Some(k0) => {
                // Insert a random lexicon entry right after the
                // punctuation mark, then re-emit the rest of the block.
                // Five random bits index the 32-entry lexicon uniformly.
                let idx = rng.gen_bits(5);
                proof {
                    assert(1u32 << 5u32 == 32) by (bit_vector);
                }
                let entry = &lut[idx as usize];
                let elen = entry.len();
                proof {
                    assert(lut@[idx as int]@ == spec_lut()[idx as int]);
                    assert(1 <= elen <= 16);
                }
                let es = entry.as_slice();
                write_bytes(out_bytes, start, ibs, base, base + k0 + 1);
                write_bytes(out_bytes, start + k0 + 1, es, 0, elen);
                write_bytes(out_bytes, start + k0 + 1 + elen, ibs, base + k0 + 1, base + 16);
                cursor = start + 16 + elen;
                proof {
                    let e = spec_lut()[idx as int];
                    assert(spec_emoji_block(b, g_in).0 == b.take(k0 as int + 1) + e + b.skip(
                        k0 as int + 1,
                    ));
                    let sb = spec_emoji_block(b, g_in).0;
                    assert forall|q: int| 0 <= q < cursor implies out_bytes@[q] == (pre + sb)[
                    q] by {
                        if q < start {
                            assert(out_bytes@[q] == pre[q]);
                        } else if q < start + k0 + 1 {
                            let w = q - start;
                            assert(out_bytes@[start + w] == ibs@[base + w]);
                        } else if q < start + k0 + 1 + elen {
                            let w = q - (start + k0 + 1);
                            assert(out_bytes@[start + k0 + 1 + w] == es@[0 + w]);
                        } else {
                            let w = q - (start + k0 + 1 + elen);
                            assert(out_bytes@[start + k0 + 1 + elen + w] == ibs@[base + k0 + 1
                                + w]);
                        }
                    }
                    assert(out_bytes@.take(cursor as int) =~= pre + sb);
                }
            },
        }
        proof {
            assert(pre + spec_emoji_block(b, g_in).0 == spec_emoji_cat(p, blk as int + 1, g0).0
                && *rng == spec_emoji_cat(p, blk as int + 1, g0).1);
            lemma_emoji_cat_len(p, blk as int + 1, g0);
        }
        blk += 1;
    }
    proof {
        lemma_emoji_cat_len(p, nb as int, g0);
    }
    let pad = iter_len - len;
    let ret = cursor - pad;
    proof {
        let full = spec_emoji_cat(p, nb as int, g0).0;
        assert(final(out_bytes)@.take(ret as int) =~= full.take(
            full.len() - (p.len() - s.len()),
        ));
    }
    ret
}

// ---------------------------------------------------------------------
// Pattern substitution (matcher-driven).
// ---------------------------------------------------------------------
/// One recorded substitution: the input position where the match ended,
/// the length of the matched text, and the length of the replacement.
pub struct SubMatchRec {
    pub end: int,
    pub match_len: int,
    pub replace_len: int,
}

/// The substitution pass as a fold over the input: the output so far,
/// the bytes fed to the matcher since its last reset, and the log of
/// substitutions made. On a match the last `match_len` output bytes are
/// replaced and the matcher history clears (the matcher resets).
pub open spec fn spec_substitute_fold(s: Seq<u8>) -> (Seq<u8>, Seq<u8>, Seq<SubMatchRec>)
    decreases s.len(),
{
    if s.len() == 0 {
        (Seq::empty(), Seq::empty(), Seq::empty())
    } else {
        let (out, h, log) = spec_substitute_fold(s.drop_last());
        let c = s.last();
        let out1 = out.push(c);
        let h1 = h.push(c);
        match spec_find_match(h1) {
            Some(i) => (
                out1.take(out1.len() - spec_patterns()[i].len()) + spec_replacements()[i],
                Seq::empty(),
                log.push(
                    SubMatchRec {
                        end: s.len() - 1,
                        match_len: spec_patterns()[i].len() as int,
                        replace_len: spec_replacements()[i].len() as int,
                    },
                ),
            ),
            None => (out1, h1, log),
        }
    }
}

/// The substitution pass's output.
pub open spec fn spec_substitute(s: Seq<u8>) -> Seq<u8> {
    spec_substitute_fold(s).0
}

/// The substitutions the pass makes, in input order.
pub open spec fn spec_substitute_log(s: Seq<u8>) -> Seq<SubMatchRec> {
    spec_substitute_fold(s).2
}

/// The sum of the per-match length deltas, replacement minus match.
pub open spec fn spec_log_delta(log: Seq<SubMatchRec>) -> int
    decreases log.len(),
{
    if log.len() == 0 {
        0
    } else {
        spec_log_delta(log.drop_last()) + log.last().replace_len - log.last().match_len
    }
}

/// A well-formed substitution log over an input of length `n`: every
/// match lies inside the input, every replacement is at most twice its
/// match, and each match begins only after the previous one ended — the
/// matches never overlap.
pub open spec fn spec_log_wf(log: Seq<SubMatchRec>, n: int) -> bool {
    forall|k: int|
        0 <= k < log.len() ==> {
            let r = #[trigger] log[k];
            &&& 1 <= r.match_len
            &&& 1 <= r.replace_len <= 2 * r.match_len
            &&& 0 <= r.end - r.match_len + 1
            &&& r.end < n
            &&& (k >= 1 ==> r.end - r.match_len + 1 > log[k - 1].end)
        }
}

/// The input position at which the matcher last reset: matches can only
/// reach back this far.
pub open spec fn spec_reset_floor(log: Seq<SubMatchRec>) -> int {
    if log.len() == 0 {
        0
    } else {
        log.last().end + 1
    }
}

/// The fold's inductive shape: the matcher history never reaches back
/// past the last match, the output never grows past twice the input,
/// the length deltas add up, and the log is well-formed.
proof fn lemma_substitute_fold_wf(s: Seq<u8>)
    ensures
        ({
            let (out, h, log) = spec_substitute_fold(s);
            &&& h.len() + spec_reset_floor(log) <= s.len()
            &&& 0 <= spec_reset_floor(log)
            &&& h.len() <= out.len()
            &&& out.len() + h.len() <= 2 * s.len()
            &&& out.len() == s.len() + spec_log_delta(log)
            &&& spec_log_wf(log, s.len() as int)
        }),
    decreases s.len(),
{
    crate::tables::lemma_patterns_wf();
    crate::tables::lemma_replacements_wf();
    if s.len() > 0 {
        lemma_substitute_fold_wf(s.drop_last());
        let (out, h, log) = spec_substitute_fold(s.drop_last());
        let c = s.last();
        let h1 = h.push(c);
        match spec_find_match(h1) {
            Some(i) => {
                crate::bitap::lemma_find_match_range(h1, 0);
                let pat_len = spec_patterns()[i].len() as int;
                // A completed pattern fits inside the fed history.
                assert(crate::bitap::spec_state_bit(h1, i, 15));
                assert(pat_len <= h1.len());
                let rec = SubMatchRec {
                    end: s.len() - 1,
                    match_len: pat_len,
                    replace_len: spec_replacements()[i].len() as int,
                };
                let log1 = log.push(rec);
                assert(log1.drop_last() =~= log);
                assert(log1.last() == rec);
                assert forall|k: int|
                    0 <= k < log1.len() implies {
                    let r = #[trigger] log1[k];
                    &&& 1 <= r.match_len
                    &&& 1 <= r.replace_len <= 2 * r.match_len
                    &&& 0 <= r.end - r.match_len + 1
                    &&& r.end < s.len() as int
                    &&& (k >= 1 ==> r.end - r.match_len + 1 > log1[k - 1].end)
                } by {
                    if k < log.len() {
                        assert(log1[k] == log[k]);
                        if k >= 1 {
                            assert(log1[k - 1] == log[k - 1]);
                        }
                    } else {
                        if k >= 1 {
                            assert(log1[k - 1] == log[log.len() - 1]);
                        }
                    }
                }
            },
            None => {},
        }
    }
}

/// The substitution pass's matches never overlap — each begins only
/// after the previous one ended, with the matcher reset in between —
/// and the sum of the per-match length deltas `replace_len - match_len`
/// is exactly the pass's total length change.
pub proof fn lemma_substitution_accounting(s: Seq<u8>)
    ensures
        spec_log_wf(spec_substitute_log(s), s.len() as int),
        spec_substitute(s).len() - s.len() == spec_log_delta(spec_substitute_log(s)),
        spec_substitute(s).len() <= 2 * s.len(),
{
    lemma_substitute_fold_wf(s);
}

/// Overwrite the last `match_len` output bytes with the match's
/// replacement, returning the moved cursor.
fn apply_replacement(out_bytes: &mut Vec<u8>, cursor: usize, m: &crate::bitap::Match) -> (nc:
    usize)
    requires
        m.replace_len == m.replacement@.len(),
        m.match_len <= cursor <= old(out_bytes).len(),
        cursor - m.match_len + m.replace_len <= old(out_bytes).len(),
    ensures
        final(out_bytes).len() == old(out_bytes).len(),
        nc == cursor - m.match_len + m.replace_len,
        final(out_bytes)@.take(nc as int) == old(out_bytes)@.take(
            cursor as int - m.match_len as int,
        ) + m.replacement@,
{
    let start = cursor - m.match_len;
    let rs = m.replacement.as_slice();
    write_bytes(out_bytes, start, rs, 0, m.replace_len);
    proof {
        let pre = old(out_bytes)@.take(start as int);
        assert forall|q: int| 0 <= q < start + m.replace_len implies out_bytes@[q] == (pre
            + m.replacement@)[q] by {
            if q < start {
                assert(out_bytes@[q] == old(out_bytes)@[q]);
            } else {
                let w = q - start;
                assert(out_bytes@[start + w] == rs@[0 + w]);
            }
        }
        assert(out_bytes@.take(start as int + m.replace_len as int) =~= pre + m.replacement@);
    }
    start + m.replace_len
}

/// The substitution pass: every input byte is copied to the output and
/// fed to the matcher; when a pattern completes, the last `match_len`
/// output bytes are overwritten with the replacement and the matcher is
/// reset. This pass reads only the logical input, never the padding.
#[verifier::rlimit(100)]
pub fn substitute(in_bytes: &Vec<u8>, len: usize, out_bytes: &mut Vec<u8>) -> (ret: usize)
    requires
        len <= in_bytes.len(),
        old(out_bytes).len() >= 2 * spec_round_up16(len as int),
    ensures
        final(out_bytes).len() == old(out_bytes).len(),
        ret == spec_substitute(in_bytes@.take(len as int)).len(),
        final(out_bytes)@.take(ret as int) == spec_substitute(in_bytes@.take(len as int)),
        ret <= 2 * (len as int),
        ret <= 2 * spec_round_up16(len as int),
        ret <= 16 * spec_round_up16(len as int),
{
    proof {
        crate::lemma_round_up16_bounds(len as int);
    }
    let ghost s = in_bytes@.take(len as int);
    let mut bitap = Bitap8x16::new();
    let mut cursor: usize = 0;
    let mut i: usize = 0;
    while i < len
        invariant
            i <= len,
            len <= in_bytes.len(),
            s == in_bytes@.take(len as int),
            out_bytes.len() == old(out_bytes).len(),
            out_bytes.len() >= 2 * (len as int),
            bitap.wf(),
            ({
                let (o, h, log) = spec_substitute_fold(s.take(i as int));
                &&& cursor == o.len()
                &&& out_bytes@.take(cursor as int) == o
                &&& bitap.history() == h
            }),
        decreases len - i,
    {
        proof {
            lemma_substitute_fold_wf(s.take(i as int));
            assert(s.take(i as int + 1).drop_last() =~= s.take(i as int));
            assert(s.take(i as int + 1).last() == s[i as int]);
            assert(s[i as int] == in_bytes@[i as int]);
        }
        let ghost (o, h, log) = spec_substitute_fold(s.take(i as int));
        let c = in_bytes[i];
        let ghost pre = out_bytes@.take(cursor as int);
        out_bytes[cursor] = c;
        cursor += 1;
        proof {
            assert forall|q: int| 0 <= q < cursor implies out_bytes@[q] == o.push(c)[q] by {
                if q < cursor - 1 {
                    assert(out_bytes@[q] == pre[q]);
                }
            }
            assert(out_bytes@.take(cursor as int) =~= o.push(c));
        }
        let m = bitap.next(c);
        match m {
            Some(m) => {
                proof {
                    crate::bitap::lemma_find_match_range(h.push(c), 0);
                }
                let ghost idx = spec_find_match(h.push(c)).unwrap();
                proof {
                    // The completed pattern fits inside the output written
                    // since the last reset.
                    assert(crate::bitap::spec_state_bit(h.push(c), idx, 15));
                    assert(m.match_len <= cursor);
                }
                let ghost mid = out_bytes@.take(cursor as int);
                cursor = apply_replacement(out_bytes, cursor, &m);
                bitap.reset();
                proof {
                    let o1 = o.push(c);
                    let target = o1.take(o1.len() - spec_patterns()[idx].len())
                        + spec_replacements()[idx];
                    assert(mid.take(cursor as int - m.replace_len as int) == o1.take(o1.len()
                        - spec_patterns()[idx].len()));
                    assert(out_bytes@.take(cursor as int) == target);
                }
            },
            None => {},
        }
        i += 1;
    }
    proof {
        assert(s.take(len as int) =~= s);
        lemma_substitute_fold_wf(s);
    }
    cursor
}

// ---------------------------------------------------------------------
// The whole transform.
// ---------------------------------------------------------------------
/// The fixed four-byte seed of the transform's random generator: the
/// transform is fully reproducible.
pub open spec fn spec_seed() -> Seq<u8> {
    seq![117u8, 119u8, 117u8, 33u8]
}

/// The whole transform: substitution, then nya-ification, then letter
/// substitution with stutters, then emoji insertion, with one
/// deterministic generator threaded through the last two passes. A pure
/// function of the input bytes alone: equal inputs give equal outputs.
pub open spec fn spec_transform(s: Seq<u8>) -> Seq<u8> {
    let g0 = crate::rng::spec_seeded(spec_seed());
    let s1 = spec_substitute(s);
    let s2 = spec_nya_pass(s1);
    let st = spec_stutter_pass(s2, g0);
    spec_emoji_pass(st.0, st.1).0
}

/// Run all four passes over `bytes[..len]`, ping-ponging between the two
/// scratch buffers; the result is the first `ret` bytes of
/// `temp_bytes2`. The scratch buffers must each hold 16 times the
/// input's length rounded up to a full block — the worst-case expansion,
/// each pass at most doubling the rounded length.
pub fn uwuify(bytes: &Vec<u8>, len: usize, temp_bytes1: &mut Vec<u8>, temp_bytes2: &mut Vec<u8>)
    -> (ret: usize)
    requires
        len <= bytes.len(),
        old(temp_bytes1).len() >= 16 * spec_round_up16(len as int),
        old(temp_bytes2).len() >= 16 * spec_round_up16(len as int),
    ensures
        final(temp_bytes1).len() == old(temp_bytes1).len(),
        final(temp_bytes2).len() == old(temp_bytes2).len(),
        ret == spec_transform(bytes@.take(len as int)).len(),
        final(temp_bytes2)@.take(ret as int) == spec_transform(bytes@.take(len as int)),
        ret <= 16 * spec_round_up16(len as int),
{
    proof {
        crate::lemma_round_up16_bounds(len as int);
    }
    let ghost s = bytes@.take(len as int);
    let ghost r0 = spec_round_up16(len as int);
    let seed: [u8; 4] = [117, 119, 117, 33];
    proof {
        assert(seed@ =~= spec_seed());
    }
    let mut rng = XorShift32::new(&seed);
    let lut = crate::tables::build_lut();
    proof {
        lemma_lut_wf();
    }
    // Substitution: grows to at most twice the rounded input length.
    let len1 = substitute(bytes, len, temp_bytes1);
    proof {
        crate::lemma_round_up16_bounds(len1 as int);
        crate::lemma_round_up16_le(len1 as int, 2 * r0);
    }
    pad_zeros(temp_bytes1, len1);
    // Nya-ification: at most doubles again.
    let len2 = nya_ify(temp_bytes1, len1, temp_bytes2);
    proof {
        crate::lemma_round_up16_bounds(len2 as int);
        crate::lemma_round_up16_le(len2 as int, 4 * r0);
        assert(spec_nya_pass(temp_bytes1@.take(len1 as int)) == spec_nya_pass(spec_substitute(s)));
    }
    pad_zeros(temp_bytes2, len2);
    // Letter substitution and stutters: at most doubles again.
    let ghost g0 = rng;
    let len3 = replace_and_stutter(&mut rng, temp_bytes2, len2, temp_bytes1);
    proof {
        crate::lemma_round_up16_bounds(len3 as int);
        crate::lemma_round_up16_le(len3 as int, 8 * r0);
    }
    pad_zeros(temp_bytes1, len3);
    // Emoji insertion: at most doubles once more, reaching the 16-fold
    // worst case.
    let len4 = emoji(&mut rng, &lut, temp_bytes1, len3, temp_bytes2);
    proof {
        let s1 = spec_substitute(s);
        let s2 = spec_nya_pass(s1);
        let st = spec_stutter_pass(s2, g0);
        assert(temp_bytes1@.take(len3 as int) == st.0);
        assert(spec_emoji_pass(temp_bytes1@.take(len3 as int), st.1).0 == spec_transform(s));
    }
    len4
}

/// Relies on String::from_utf8_lossy: on valid UTF-8 input it returns
/// exactly the decoding of the bytes.
#[verifier::external_body]
fn string_from_utf8_lossy(v: &Vec<u8>) -> (r: String)
    ensures
        vstd::utf8::valid_utf8(v@) ==> r@ == vstd::utf8::decode_utf8(v@),
{
    String::from_utf8_lossy(v.as_slice()).into_owned()
}

/// Transform a string slice in one call, allocating fresh scratch
/// buffers; convenient for one-off use. The transformed bytes decode
/// back to characters whenever they are valid UTF-8 (the rewrites insert
/// whole UTF-8 sequences at ASCII boundaries, so a valid input stays
/// valid in practice; a hypothetical invalid output would come back with
/// replacement characters).
pub fn uwuify_str(s: &str) -> (r: String)
    requires
        16 * spec_round_up16(vstd::utf8::encode_utf8(s@).len() as int) <= usize::MAX,
    ensures
        vstd::utf8::valid_utf8(spec_transform(vstd::utf8::encode_utf8(s@))) ==> r@
            == vstd::utf8::decode_utf8(spec_transform(vstd::utf8::encode_utf8(s@))),
{
    let bytes = vstd::slice::slice_to_vec(s.as_bytes());
    let n = bytes.len();
    proof {
        crate::lemma_round_up16_bounds(n as int);
    }
    let cap = 16 * crate::round_up16(n);
    let mut temp1: Vec<u8> = vec![0u8; cap];
    let mut temp2: Vec<u8> = vec![0u8; cap];
    let len = uwuify(&bytes, n, &mut temp1, &mut temp2);
    proof {
        assert(bytes@.take(n as int) =~= bytes@);
        assert(bytes@ == vstd::utf8::encode_utf8(s@));
    }
    temp2.truncate(len);
    proof {
        assert(temp2@ =~= spec_transform(vstd::utf8::encode_utf8(s@)));
    }
    string_from_utf8_lossy(&temp2)
}

} // verus!
