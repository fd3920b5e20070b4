//! Fixed-capacity bit-parallel multi-pattern matcher.
//!
//! Eight patterns of at most 16 bytes are tracked simultaneously in eight
//! 16-bit lanes. Each lane holds one bit per position of its pattern,
//! right-aligned so that the pattern's final byte always maps to bit 15.
//! On every input byte the lanes are shifted by one, a start bit is OR'd
//! in at each pattern's first position (so a byte can begin a new partial
//! match while extending others), and the result is masked with a
//! per-byte constant that keeps only the positions whose expected byte
//! accepts the incoming one. A set bit 15 means the lane's pattern just
//! completed; the lowest-indexed completed pattern is reported.

use vstd::prelude::*;

use crate::tables::{
    build_patterns, build_replacements, lemma_patterns_wf, lemma_replacements_wf, spec_patterns,
    spec_replacements, PATTERN_COUNT,
};

verus! {

/// Whether `b` is an ASCII letter.
pub open spec fn spec_is_ascii_alpha(b: u8) -> bool {
    (65 <= b <= 90) || (97 <= b <= 122)
}

/// Whether pattern byte `p` accepts input byte `c`: the byte itself, or,
/// for letters, its case-flipped form.
pub open spec fn spec_accepts(p: u8, c: u8) -> bool {
    c == p || (spec_is_ascii_alpha(p) && c == (p ^ 0x20))
}

/// Bit `j` of the 16-bit lane `x`.
pub open spec fn bit16(x: u16, j: u16) -> bool {
    x & (1u16 << j) != 0
}

/// The lane offset of pattern `i`: its first byte maps to this bit, its
/// last byte to bit 15.
pub open spec fn spec_offset(i: int) -> int {
    16 - spec_patterns()[i].len()
}

/// The per-byte mask: bit (i, j) is set exactly when position
/// `j - offset(i)` of pattern `i` accepts byte `c`.
pub open spec fn spec_mask_bit(c: u8, i: int, j: int) -> bool {
    &&& 0 <= i < PATTERN_COUNT
    &&& spec_offset(i) <= j < 16
    &&& spec_accepts(spec_patterns()[i][j - spec_offset(i)], c)
}

/// The meaning of state bit (i, j) after the bytes `h` have been fed
/// since the last reset: the last `j - offset(i) + 1` bytes of `h` match
/// the first `j - offset(i) + 1` bytes of pattern `i`.
pub open spec fn spec_state_bit(h: Seq<u8>, i: int, j: int) -> bool {
    let k = j - spec_offset(i) + 1;
    &&& 0 <= i < PATTERN_COUNT
    &&& spec_offset(i) <= j < 16
    &&& k <= h.len()
    &&& forall|m: int| 0 <= m < k ==> spec_accepts(spec_patterns()[i][m], h[h.len() - k + m])
}

/// Pattern `i` has just completed: its terminal bit (bit 15) is set,
/// i.e. `h` ends with an accepted spelling of the whole pattern.
pub open spec fn spec_pattern_matched(h: Seq<u8>, i: int) -> bool {
    spec_state_bit(h, i, 15)
}

/// The lowest pattern index at or above `i` that has just completed.
pub open spec fn spec_find_match_from(h: Seq<u8>, i: int) -> Option<int>
    decreases PATTERN_COUNT - i,
{
    if i < 0 || i >= PATTERN_COUNT {
        None
    } else if spec_pattern_matched(h, i) {
        Some(i)
    } else {
        spec_find_match_from(h, i + 1)
    }
}

/// The lowest pattern index that has just completed after feeding `h`
/// since the last reset; ties are broken toward the lowest index.
pub open spec fn spec_find_match(h: Seq<u8>) -> Option<int> {
    spec_find_match_from(h, 0)
}

/// A completed match: the length of the matched text and the replacement
/// to emit in its place.
#[derive(Debug, PartialEq)]
pub struct Match {
    pub match_len: usize,
    pub replacement: Vec<u8>,
    pub replace_len: usize,
}

/// The matcher: eight lane states, the start-bit mask, the 256 per-byte
/// masks, the tables, and (in ghost state) the bytes fed since the last
/// reset.
pub struct Bitap8x16 {
    v: [u16; 8],
    start_mask: [u16; 8],
    masks: Vec<[u16; 8]>,
    patterns: Vec<Vec<u8>>,
    replacements: Vec<Vec<u8>>,
    hist: Ghost<Seq<u8>>,
}

// ---------------------------------------------------------------------
// Lane-level bit lemmas.
// ---------------------------------------------------------------------
/// The zero lane has no bits set.
proof fn lemma_bit16_zero(j: u16)
    requires
        j < 16,
    ensures
        !bit16(0u16, j),
{
    assert(j < 16 ==> (0u16 & (1u16 << j) == 0)) by (bit_vector);
}

/// A lane with a single bit set.
proof fn lemma_bit16_single(t: u16, j: u16)
    requires
        t < 16,
        j < 16,
    ensures
        bit16(1u16 << t, j) == (j == t),
{
    assert(t < 16 && j < 16 ==> (((1u16 << t) & (1u16 << j) != 0) == (j == t))) by (bit_vector);
}

/// OR-ing a single bit into a lane sets that bit and keeps the rest.
proof fn lemma_bit16_or_set(x: u16, t: u16, j: u16)
    requires
        t < 16,
        j < 16,
    ensures
        bit16(x | (1u16 << t), j) == (bit16(x, j) || j == t),
{
    assert(t < 16 && j < 16 ==> (((x | (1u16 << t)) & (1u16 << j) != 0) == ((x & (1u16 << j) != 0)
        || j == t))) by (bit_vector);
}

/// One matcher step on a single lane: shift, OR the start bit, mask.
proof fn lemma_bit16_step(v: u16, s: u16, m: u16, j: u16)
    requires
        j < 16,
    ensures
        bit16(((v << 1) | s) & m, j) == (((j >= 1 && bit16(v, (j - 1) as u16)) || bit16(s, j))
            && bit16(m, j)),
{
    assert(j < 16 ==> ((((v << 1) | s) & m) & (1u16 << j) != 0) == (((j >= 1 && (v & (1u16 << ((j
        - 1) as u16)) != 0)) || (s & (1u16 << j) != 0)) && (m & (1u16 << j) != 0)))
        by (bit_vector);
}

/// Bit 15 of a lane is what the terminal-bit test reads.
proof fn lemma_bit16_high(x: u16)
    ensures
        (x & 0x8000u16 != 0) == bit16(x, 15),
{
    assert((x & 0x8000u16 != 0) == (x & (1u16 << 15u16) != 0)) by (bit_vector);
}

// ---------------------------------------------------------------------
// Table construction.
// ---------------------------------------------------------------------
/// The pattern table holds exactly the specified patterns.
spec fn patterns_match(patterns: Seq<Vec<u8>>) -> bool {
    &&& patterns.len() == PATTERN_COUNT
    &&& forall|i: int| 0 <= i < PATTERN_COUNT ==> (#[trigger] patterns[i])@ == spec_patterns()[i]
}

/// Whether `b` is an ASCII letter.
fn is_ascii_alpha(b: u8) -> (r: bool)
    ensures
        r == spec_is_ascii_alpha(b),
{
    (65 <= b && b <= 90) || (97 <= b && b <= 122)
}

/// Build the start-bit mask: lane `i` has exactly the bit at the
/// pattern's first position set.
fn get_start_mask(patterns: &Vec<Vec<u8>>) -> (r: [u16; 8])
    requires
        patterns_match(patterns@),
    ensures
        forall|i: int, j: u16|
            0 <= i < PATTERN_COUNT && j < 16 ==> (#[trigger] bit16(r[i], j)) == (j
                == spec_offset(i)),
{
    proof {
        lemma_patterns_wf();
    }
    let mut r: [u16; 8] = [0u16; 8];
    for i in 0..8
        invariant
            patterns_match(patterns@),
            forall|i2: int, j: u16|
                0 <= i2 < i && j < 16 ==> (#[trigger] bit16(r[i2], j)) == (j == spec_offset(i2)),
    {
        proof {
            lemma_patterns_wf();
        }
        let len = patterns[i].len();
        assert(1 <= len <= 16);
        let t: u16 = (16 - len) as u16;
        r[i] = 1u16 << t;
        assert forall|i2: int, j: u16|
            0 <= i2 < i + 1 && j < 16 implies (#[trigger] bit16(r[i2], j)) == (j == spec_offset(
            i2)) by {
            if i2 == i {
                lemma_bit16_single(t, j);
            }
        }
    }
    r
}

/// Build the 256 per-byte masks: for byte `c`, bit (i, j) is set exactly
/// when position `j - offset(i)` of pattern `i` accepts `c`, counting a
/// letter and its case-flipped form alike.
fn get_masks(patterns: &Vec<Vec<u8>>) -> (r: Vec<[u16; 8]>)
    requires
        patterns_match(patterns@),
    ensures
        r@.len() == 256,
        forall|c: int, i: int, j: u16|
            0 <= c < 256 && 0 <= i < PATTERN_COUNT && j < 16 ==> (#[trigger] bit16(r@[c][i], j))
                == spec_mask_bit(c as u8, i, j as int),
{
    proof {
        lemma_patterns_wf();
    }
    let mut r: Vec<[u16; 8]> = Vec::new();
    for c in 0..256usize
        invariant
            patterns_match(patterns@),
            r@.len() == c,
            forall|c2: int, i: int, j: u16|
                0 <= c2 < c && 0 <= i < PATTERN_COUNT && j < 16 ==> (#[trigger] bit16(
                    r@[c2][i],
                    j,
                )) == spec_mask_bit(c2 as u8, i, j as int),
    {
        let row = get_mask_row(patterns, c as u8);
        r.push(row);
    }
    r
}

/// Build the mask row for a single byte value.
fn get_mask_row(patterns: &Vec<Vec<u8>>, c: u8) -> (row: [u16; 8])
    requires
        patterns_match(patterns@),
    ensures
        forall|i: int, j: u16|
            0 <= i < PATTERN_COUNT && j < 16 ==> (#[trigger] bit16(row[i], j)) == spec_mask_bit(
                c,
                i,
                j as int,
            ),
{
    proof {
        lemma_patterns_wf();
    }
    let mut row: [u16; 8] = [0u16; 8];
    for i in 0..8
        invariant
            patterns_match(patterns@),
            forall|i2: int, j: u16|
                0 <= i2 < i && j < 16 ==> (#[trigger] bit16(row[i2], j)) == spec_mask_bit(
                    c,
                    i2,
                    j as int,
                ),
    {
        proof {
            lemma_patterns_wf();
        }
        let len = patterns[i].len();
        assert(1 <= len <= 16);
        let offset = 16 - len;
        let mut lane: u16 = 0;
        assert forall|j: u16| j < 16 implies !bit16(lane, j) by {
            lemma_bit16_zero(j);
        }
        for p in 0..len
            invariant
                patterns_match(patterns@),
                len == spec_patterns()[i as int].len(),
                1 <= len <= 16,
                offset == spec_offset(i as int),
                i < 8,
                forall|j: u16|
                    j < 16 ==> (#[trigger] bit16(lane, j)) == (offset <= j < offset + p
                        && spec_accepts(spec_patterns()[i as int][j - offset], c)),
        {
            let pb = patterns[i][p];
            let accept = pb == c || (is_ascii_alpha(pb) && (pb ^ 0x20) == c);
            assert(accept == spec_accepts(spec_patterns()[i as int][p as int], c));
            let ghost old_lane = lane;
            let t: u16 = (offset + p) as u16;
            if accept {
                lane = lane | (1u16 << t);
            }
            assert forall|j: u16|
                j < 16 implies (#[trigger] bit16(lane, j)) == (offset <= j < offset + p + 1
                && spec_accepts(spec_patterns()[i as int][j - offset], c)) by {
                if accept {
                    lemma_bit16_or_set(old_lane, t, j);
                }
            }
        }
        row[i] = lane;
        assert forall|i2: int, j: u16|
            0 <= i2 < i + 1 && j < 16 implies (#[trigger] bit16(row[i2], j)) == spec_mask_bit(
            c,
            i2,
            j as int,
        ) by {}
    }
    row
}

// ---------------------------------------------------------------------
// The semantic step: what one byte does to a state bit.
// ---------------------------------------------------------------------
/// Feeding one byte moves each partial match forward by one position:
/// bit (i, j) after `h + [c]` holds exactly when either bit (i, j - 1)
/// held before, or `j` is the pattern's start bit, and in both cases
/// position `j - offset(i)` of the pattern accepts `c`.
proof fn lemma_state_step(h: Seq<u8>, c: u8, i: int, j: int)
    requires
        0 <= i < PATTERN_COUNT,
        0 <= j < 16,
        1 <= spec_patterns()[i].len() <= 16,
    ensures
        spec_state_bit(h.push(c), i, j) == (((j >= 1 && spec_state_bit(h, i, j - 1)) || j
            == spec_offset(i)) && spec_mask_bit(c, i, j)),
{
    let h2 = h.push(c);
    let n = h.len() as int;
    let offset = spec_offset(i);
    let k = j - offset + 1;
    let pat = spec_patterns()[i];
    if spec_state_bit(h2, i, j) {
        // The last byte of the partial match is c itself.
        assert(spec_accepts(pat[k - 1], h2[n + 1 - k + (k - 1)]));
        assert(h2[n] == c);
        assert(spec_mask_bit(c, i, j));
        if j != offset {
            // The shorter partial match held before this byte.
            assert forall|m: int| 0 <= m < k - 1 implies spec_accepts(
                pat[m],
                h[n - (k - 1) + m],
            ) by {
                assert(spec_accepts(pat[m], h2[n + 1 - k + m]));
                assert(h2[n + 1 - k + m] == h[n + 1 - k + m]);
            }
            assert(spec_state_bit(h, i, j - 1));
        }
    }
    if ((j >= 1 && spec_state_bit(h, i, j - 1)) || j == offset) && spec_mask_bit(c, i, j) {
        if j == offset {
            assert(spec_accepts(pat[0], h2[n]));
            assert forall|m: int| 0 <= m < 1 implies spec_accepts(pat[m], h2[n + 1 - 1 + m]) by {}
            assert(spec_state_bit(h2, i, j));
        } else {
            assert forall|m: int| 0 <= m < k implies spec_accepts(pat[m], h2[n + 1 - k + m]) by {
                if m < k - 1 {
                    assert(spec_accepts(pat[m], h[n - (k - 1) + m]));
                    assert(h2[n + 1 - k + m] == h[n + 1 - k + m]);
                } else {
                    assert(h2[n] == c);
                }
            }
            assert(spec_state_bit(h2, i, j));
        }
    }
}

/// If no pattern below `i` has completed, the search result from 0 equals
/// the search result from `i`.
pub proof fn lemma_find_match_skip(h: Seq<u8>, i: int)
    requires
        0 <= i <= PATTERN_COUNT,
        forall|i2: int| 0 <= i2 < i ==> !spec_pattern_matched(h, i2),
    ensures
        spec_find_match(h) == spec_find_match_from(h, i),
    decreases i,
{
    if i > 0 {
        lemma_find_match_skip(h, i - 1);
    }
}

/// A found match is a really completed pattern with an index in range.
pub proof fn lemma_find_match_range(h: Seq<u8>, i: int)
    requires
        0 <= i,
    ensures
        spec_find_match_from(h, i) matches Some(j) ==> i <= j < PATTERN_COUNT
            && spec_pattern_matched(h, j),
    decreases PATTERN_COUNT - i,
{
    if 0 <= i < PATTERN_COUNT && !spec_pattern_matched(h, i) {
        lemma_find_match_range(h, i + 1);
    }
}

// ---------------------------------------------------------------------
// The matcher itself.
// ---------------------------------------------------------------------
impl Bitap8x16 {
    /// The bytes fed since the last reset.
    pub closed spec fn history(&self) -> Seq<u8> {
        self.hist@
    }

    /// The matcher's tables are the fixed tables and the lane states mean
    /// what `spec_state_bit` says about the bytes fed since the last
    /// reset.
    pub closed spec fn wf(&self) -> bool {
        &&& self.masks@.len() == 256
        &&& forall|c: int, i: int, j: u16|
            0 <= c < 256 && 0 <= i < PATTERN_COUNT && j < 16 ==> (#[trigger] bit16(
                self.masks@[c][i],
                j,
            )) == spec_mask_bit(c as u8, i, j as int)
        &&& forall|i: int, j: u16|
            0 <= i < PATTERN_COUNT && j < 16 ==> (#[trigger] bit16(self.start_mask[i], j)) == (j
                == spec_offset(i))
        &&& patterns_match(self.patterns@)
        &&& self.replacements@.len() == PATTERN_COUNT
        &&& forall|i: int|
            0 <= i < PATTERN_COUNT ==> (#[trigger] self.replacements@[i])@
                == spec_replacements()[i]
        &&& forall|i: int, j: u16|
            0 <= i < PATTERN_COUNT && j < 16 ==> (#[trigger] bit16(self.v[i], j))
                == spec_state_bit(self.hist@, i, j as int)
    }

    /// A fresh matcher: empty state, nothing fed yet.
    pub fn new() -> (r: Self)
        ensures
            r.wf(),
            r.history() == Seq::<u8>::empty(),
    {
        let patterns = build_patterns();
        let replacements = build_replacements();
        let start_mask = get_start_mask(&patterns);
        let masks = get_masks(&patterns);
        let r = Bitap8x16 {
            v: [0u16; 8],
            start_mask,
            masks,
            patterns,
            replacements,
            hist: Ghost(Seq::empty()),
        };
        proof {
            assert forall|i: int, j: u16|
                0 <= i < PATTERN_COUNT && j < 16 implies (#[trigger] bit16(r.v[i], j))
                == spec_state_bit(r.hist@, i, j as int) by {
                lemma_bit16_zero(j);
            }
        }
        r
    }

    /// Clear the lane states; the caller must call this after every
    /// reported match, which is what makes matches non-overlapping.
    pub fn reset(&mut self)
        requires
            old(self).wf(),
        ensures
            final(self).wf(),
            final(self).history() == Seq::<u8>::empty(),
    {
        self.v = [0u16; 8];
        self.hist = Ghost(Seq::empty());
        proof {
            assert forall|i: int, j: u16|
                0 <= i < PATTERN_COUNT && j < 16 implies (#[trigger] bit16(self.v[i], j))
                == spec_state_bit(self.hist@, i, j as int) by {
                lemma_bit16_zero(j);
            }
        }
    }

    /// Feed one byte. Reports the lowest-indexed pattern that completes
    /// at this byte, with its length and replacement; reports nothing
    /// otherwise. A reported match never reaches back past the last
    /// reset, so matches separated by resets cannot overlap.
    pub fn next(&mut self, c: u8) -> (r: Option<Match>)
        requires
            old(self).wf(),
        ensures
            final(self).wf(),
            final(self).history() == old(self).history().push(c),
            r is Some <==> spec_find_match(old(self).history().push(c)) is Some,
            r matches Some(m) ==> {
                let idx = spec_find_match(old(self).history().push(c)).unwrap();
                &&& m.match_len == spec_patterns()[idx].len()
                &&& m.replacement@ == spec_replacements()[idx]
                &&& m.replace_len == spec_replacements()[idx].len()
                &&& m.match_len <= old(self).history().len() + 1
            },
    {
        proof {
            lemma_patterns_wf();
        }
        let ghost h = self.hist@;
        let ghost h2 = h.push(c);
        self.hist = Ghost(h2);
        let row: [u16; 8] = self.masks[c as usize];
        for i in 0..8
            invariant
                self.masks@.len() == 256,
                row == self.masks@[c as int],
                self.hist@ == h2,
                h2 == h.push(c),
                patterns_match(self.patterns@),
                forall|c2: int, i2: int, j: u16|
                    0 <= c2 < 256 && 0 <= i2 < PATTERN_COUNT && j < 16 ==> (#[trigger] bit16(
                        self.masks@[c2][i2],
                        j,
                    )) == spec_mask_bit(c2 as u8, i2, j as int),
                forall|i2: int, j: u16|
                    0 <= i2 < PATTERN_COUNT && j < 16 ==> (#[trigger] bit16(self.start_mask[i2], j))
                        == (j == spec_offset(i2)),
                self.replacements@.len() == PATTERN_COUNT,
                forall|i2: int|
                    0 <= i2 < PATTERN_COUNT ==> (#[trigger] self.replacements@[i2])@
                        == spec_replacements()[i2],
                forall|i2: int, j: u16|
                    i <= i2 < PATTERN_COUNT && j < 16 ==> (#[trigger] bit16(self.v[i2], j))
                        == spec_state_bit(h, i2, j as int),
                forall|i2: int, j: u16|
                    0 <= i2 < i && j < 16 ==> (#[trigger] bit16(self.v[i2], j)) == spec_state_bit(
                        h2,
                        i2,
                        j as int,
                    ),
        {
            proof {
                lemma_patterns_wf();
            }
            let ghost vi = self.v[i as int];
            let updated = ((self.v[i] << 1u16) | self.start_mask[i]) & row[i];
            self.v[i] = updated;
            assert forall|j: u16| j < 16 implies (#[trigger] bit16(updated, j)) == spec_state_bit(
                h2,
                i as int,
                j as int,
            ) by {
                lemma_bit16_step(vi, self.start_mask[i as int], row[i as int], j);
                lemma_state_step(h, c, i as int, j as int);
            }
        }
        // Scan the terminal bits, lowest pattern index first.
        let mut idx: usize = 0;
        while idx < 8
            invariant
                self.hist@ == h2,
                h2 == old(self).history().push(c),
                self.wf(),
                idx <= 8,
                forall|i2: int| 0 <= i2 < idx ==> !spec_pattern_matched(h2, i2),
            decreases 8 - idx,
        {
            let lane = self.v[idx];
            proof {
                lemma_bit16_high(lane);
                assert(bit16(self.v[idx as int], 15u16) == spec_state_bit(h2, idx as int, 15));
            }
            if lane & 0x8000u16 != 0 {
                proof {
                    assert(spec_pattern_matched(h2, idx as int));
                    lemma_find_match_skip(h2, idx as int);
                    assert(spec_find_match(h2) == Some(idx as int));
                    lemma_patterns_wf();
                    lemma_replacements_wf();
                }
                let match_len = self.patterns[idx].len();
                let replace_len = self.replacements[idx].len();
                let mut replacement: Vec<u8> = Vec::new();
                let mut p: usize = 0;
                while p < replace_len
                    invariant
                        p <= replace_len,
                        idx < 8,
                        self.wf(),
                        replace_len == spec_replacements()[idx as int].len(),
                        replacement@ == spec_replacements()[idx as int].take(p as int),
                    decreases replace_len - p,
                {
                    let b = self.replacements[idx][p];
                    replacement.push(b);
                    proof {
                        assert(replacement@ =~= spec_replacements()[idx as int].take(p + 1));
                    }
                    p += 1;
                }
                proof {
                    assert(replacement@ =~= spec_replacements()[idx as int]);
                    // The completed pattern fits inside the fed history.
                    assert(spec_state_bit(h2, idx as int, 15));
                }
                return Some(Match { match_len, replacement, replace_len });
            }
            proof {
                assert(!spec_pattern_matched(h2, idx as int));
            }
            idx += 1;
        }
        proof {
            lemma_find_match_skip(h2, 8);
            assert(spec_find_match_from(h2, 8) is None);
        }
        None
    }
}

} // verus!
