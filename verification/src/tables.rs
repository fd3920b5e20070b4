//! The fixed rewrite tables: the eight patterns the matcher recognizes,
//! their replacements, and the kaomoji lexicon used by the emoji pass.
//!
//! The tables are constructed once at run time and proved equal to their
//! specification-level values, so every contract downstream can speak of
//! the table contents exactly.

use vstd::prelude::*;

verus! {

/// Number of patterns the matcher tracks at once (one 16-bit lane each).
pub const PATTERN_COUNT: usize = 8;

/// Number of entries in the kaomoji lexicon; a power of two so that a
/// fixed-width random bit-field indexes it uniformly.
pub const LUT_SIZE: usize = 32;

/// The patterns, each between 1 and 16 bytes of ASCII.
pub open spec fn spec_patterns() -> Seq<Seq<u8>> {
    seq![
        seq![115u8, 109u8, 97u8, 108u8, 108u8],  // "small"
        seq![99u8, 117u8, 116u8, 101u8],  // "cute"
        seq![102u8, 108u8, 117u8, 102u8, 102u8],  // "fluff"
        seq![108u8, 111u8, 118u8, 101u8],  // "love"
        seq![115u8, 116u8, 117u8, 112u8, 105u8, 100u8],  // "stupid"
        seq![119u8, 104u8, 97u8, 116u8],  // "what"
        seq![109u8, 101u8, 111u8, 119u8],  // "meow"
        seq![109u8, 101u8, 111u8, 119u8],  // "meow"
    ]
}

/// The replacement emitted when the same-indexed pattern completes.
/// No replacement is more than twice as long as its pattern, which bounds
/// the worst-case growth of the substitution pass.
pub open spec fn spec_replacements() -> Seq<Seq<u8>> {
    seq![
        seq![115u8, 109u8, 111u8, 108u8],  // "smol"
        seq![107u8, 97u8, 119u8, 97u8, 105u8, 105u8, 126u8],  // "kawaii~"
        seq![102u8, 108u8, 111u8, 111u8, 102u8],  // "floof"
        seq![108u8, 117u8, 118u8],  // "luv"
        seq![98u8, 97u8, 107u8, 97u8],  // "baka"
        seq![110u8, 97u8, 110u8, 105u8],  // "nani"
        seq![110u8, 121u8, 97u8, 126u8],  // "nya~"
        seq![110u8, 121u8, 97u8, 126u8],  // "nya~"
    ]
}

/// The kaomoji lexicon, each entry between 1 and 16 bytes.
pub open spec fn spec_lut() -> Seq<Seq<u8>> {
    seq![
        seq![32u8, 114u8, 97u8, 119u8, 114u8, 32u8, 120u8, 51u8],  // " rawr x3"
        seq![32u8, 79u8, 119u8, 79u8],  // " OwO"
        seq![32u8, 85u8, 119u8, 85u8],  // " UwU"
        seq![32u8, 111u8, 46u8, 79u8],  // " o.O"
        seq![32u8, 45u8, 46u8, 45u8],  // " -.-"
        seq![32u8, 62u8, 119u8, 60u8],  // " >w<"
        seq![32u8, 40u8, 226u8, 145u8, 133u8, 203u8, 152u8, 234u8, 146u8, 179u8, 203u8, 152u8, 41u8],  // " (⑅˘꒳˘)"
        seq![32u8, 40u8, 234u8, 136u8, 141u8, 225u8, 180u8, 151u8, 234u8, 136u8, 141u8, 41u8],  // " (ꈍᴗꈍ)"
        seq![32u8, 40u8, 203u8, 152u8, 207u8, 137u8, 203u8, 152u8, 41u8],  // " (˘ω˘)"
        seq![32u8, 40u8, 85u8, 32u8, 225u8, 181u8, 149u8, 32u8, 85u8, 226u8, 157u8, 129u8, 41u8],  // " (U ᵕ U❁)"
        seq![32u8, 207u8, 131u8, 207u8, 137u8, 207u8, 131u8],  // " σωσ"
        seq![32u8, 195u8, 178u8, 207u8, 137u8, 195u8, 179u8],  // " òωó"
        seq![32u8, 40u8, 47u8, 47u8, 47u8, 203u8, 172u8, 47u8, 47u8, 47u8, 226u8, 156u8, 191u8, 41u8],  // " (///ˬ///✿)"
        seq![32u8, 40u8, 85u8, 32u8, 239u8, 185u8, 143u8, 32u8, 85u8, 41u8],  // " (U ﹏ U)"
        seq![32u8, 40u8, 32u8, 205u8, 161u8, 111u8, 32u8, 207u8, 137u8, 32u8, 205u8, 161u8, 111u8, 32u8, 41u8],  // " ( ͡o ω ͡o )"
        seq![32u8, 202u8, 152u8, 119u8, 202u8, 152u8],  // " ʘwʘ"
        seq![32u8, 58u8, 51u8],  // " :3"
        seq![32u8, 58u8, 51u8],  // " :3"
        seq![32u8, 88u8, 68u8],  // " XD"
        seq![32u8, 110u8, 121u8, 97u8, 97u8, 126u8, 126u8],  // " nyaa~~"
        seq![32u8, 109u8, 121u8, 97u8],  // " mya"
        seq![32u8, 62u8, 95u8, 60u8],  // " >_<"
        seq![32u8, 240u8, 159u8, 152u8, 179u8],  // " 😳"
        seq![32u8, 240u8, 159u8, 165u8, 186u8],  // " 🥺"
        seq![32u8, 240u8, 159u8, 152u8, 179u8, 240u8, 159u8, 152u8, 179u8, 240u8, 159u8, 152u8, 179u8],  // " 😳😳😳"
        seq![32u8, 114u8, 97u8, 119u8, 114u8],  // " rawr"
        seq![32u8, 94u8, 94u8],  // " ^^"
        seq![32u8, 94u8, 94u8, 59u8, 59u8],  // " ^^;;"
        seq![32u8, 40u8, 203u8, 134u8, 32u8, 239u8, 187u8, 140u8, 32u8, 203u8, 134u8, 41u8, 226u8, 153u8, 161u8],  // " (ˆ ﻌ ˆ)♡"
        seq![32u8, 94u8, 226u8, 128u8, 162u8, 239u8, 187u8, 140u8, 226u8, 128u8, 162u8, 94u8],  // " ^•ﻌ•^"
        seq![32u8, 47u8, 40u8, 94u8, 226u8, 128u8, 162u8, 207u8, 137u8, 226u8, 128u8, 162u8, 94u8, 41u8],  // " /(^•ω•^)"
        seq![32u8, 40u8, 226u8, 156u8, 191u8, 111u8, 207u8, 137u8, 111u8, 41u8],  // " (✿oωo)"
    ]
}

/// Shape of the pattern table: eight patterns of 1 to 16 bytes.
pub proof fn lemma_patterns_wf()
    ensures
        spec_patterns().len() == PATTERN_COUNT,
        forall|i: int|
            0 <= i < PATTERN_COUNT ==> 1 <= (#[trigger] spec_patterns()[i]).len() <= 16,
{
    assert forall|i: int| 0 <= i < PATTERN_COUNT implies 1 <= (
    #[trigger] spec_patterns()[i]).len() <= 16 by {

        assert(spec_patterns()[0].len() == 5);
        assert(spec_patterns()[1].len() == 4);
        assert(spec_patterns()[2].len() == 5);
        assert(spec_patterns()[3].len() == 4);
        assert(spec_patterns()[4].len() == 6);
        assert(spec_patterns()[5].len() == 4);
        assert(spec_patterns()[6].len() == 4);
        assert(spec_patterns()[7].len() == 4);
    }
}

/// Shape of the replacement table: eight entries, each at most 16 bytes
/// and at most twice as long as the pattern it replaces.
pub proof fn lemma_replacements_wf()
    ensures
        spec_replacements().len() == PATTERN_COUNT,
        forall|i: int|
            0 <= i < PATTERN_COUNT ==> 1 <= (#[trigger] spec_replacements()[i]).len() <= 16,
        forall|i: int|
            0 <= i < PATTERN_COUNT ==> (#[trigger] spec_replacements()[i]).len() <= 2
                * spec_patterns()[i].len(),
{
    lemma_patterns_wf();
    assert forall|i: int| 0 <= i < PATTERN_COUNT implies 1 <= (
    #[trigger] spec_replacements()[i]).len() <= 16 && spec_replacements()[i].len() <= 2
        * spec_patterns()[i].len() by {

        assert(spec_replacements()[0].len() == 4);
        assert(spec_replacements()[1].len() == 7);
        assert(spec_replacements()[2].len() == 5);
        assert(spec_replacements()[3].len() == 3);
        assert(spec_replacements()[4].len() == 4);
        assert(spec_replacements()[5].len() == 4);
        assert(spec_replacements()[6].len() == 4);
        assert(spec_replacements()[7].len() == 4);
    }
}

/// Shape of the lexicon: thirty-two entries of 1 to 16 bytes.
pub proof fn lemma_lut_wf()
    ensures
        spec_lut().len() == LUT_SIZE,
        forall|i: int| 0 <= i < LUT_SIZE ==> 1 <= (#[trigger] spec_lut()[i]).len() <= 16,
{
    assert forall|i: int| 0 <= i < LUT_SIZE implies 1 <= (#[trigger] spec_lut()[i]).len()
        <= 16 by {

        assert(spec_lut()[0].len() == 8);
        assert(spec_lut()[1].len() == 4);
        assert(spec_lut()[2].len() == 4);
        assert(spec_lut()[3].len() == 4);
        assert(spec_lut()[4].len() == 4);
        assert(spec_lut()[5].len() == 4);
        assert(spec_lut()[6].len() == 13);
        assert(spec_lut()[7].len() == 12);
        assert(spec_lut()[8].len() == 9);
        assert(spec_lut()[9].len() == 13);
        assert(spec_lut()[10].len() == 7);
        assert(spec_lut()[11].len() == 7);
        assert(spec_lut()[12].len() == 14);
        assert(spec_lut()[13].len() == 10);
        assert(spec_lut()[14].len() == 15);
        assert(spec_lut()[15].len() == 6);
        assert(spec_lut()[16].len() == 3);
        assert(spec_lut()[17].len() == 3);
        assert(spec_lut()[18].len() == 3);
        assert(spec_lut()[19].len() == 7);
        assert(spec_lut()[20].len() == 4);
        assert(spec_lut()[21].len() == 4);
        assert(spec_lut()[22].len() == 5);
        assert(spec_lut()[23].len() == 5);
        assert(spec_lut()[24].len() == 13);
        assert(spec_lut()[25].len() == 5);
        assert(spec_lut()[26].len() == 3);
        assert(spec_lut()[27].len() == 5);
        assert(spec_lut()[28].len() == 15);
        assert(spec_lut()[29].len() == 12);
        assert(spec_lut()[30].len() == 14);
        assert(spec_lut()[31].len() == 10);
    }
}

/// Build the pattern table.
pub fn build_patterns() -> (r: Vec<Vec<u8>>)
    ensures
        r@.len() == PATTERN_COUNT,
        forall|i: int| 0 <= i < PATTERN_COUNT ==> (#[trigger] r@[i])@ == spec_patterns()[i],
{
    let r: Vec<Vec<u8>> = vec![

        vec![115u8, 109u8, 97u8, 108u8, 108u8],  // "small"
        vec![99u8, 117u8, 116u8, 101u8],  // "cute"
        vec![102u8, 108u8, 117u8, 102u8, 102u8],  // "fluff"
        vec![108u8, 111u8, 118u8, 101u8],  // "love"
        vec![115u8, 116u8, 117u8, 112u8, 105u8, 100u8],  // "stupid"
        vec![119u8, 104u8, 97u8, 116u8],  // "what"
        vec![109u8, 101u8, 111u8, 119u8],  // "meow"
        vec![109u8, 101u8, 111u8, 119u8],  // "meow"
    ];
    proof {

        assert(r@[0]@ =~= spec_patterns()[0]);
        assert(r@[1]@ =~= spec_patterns()[1]);
        assert(r@[2]@ =~= spec_patterns()[2]);
        assert(r@[3]@ =~= spec_patterns()[3]);
        assert(r@[4]@ =~= spec_patterns()[4]);
        assert(r@[5]@ =~= spec_patterns()[5]);
        assert(r@[6]@ =~= spec_patterns()[6]);
        assert(r@[7]@ =~= spec_patterns()[7]);
    }
    r
}

/// Build the replacement table.
pub fn build_replacements() -> (r: Vec<Vec<u8>>)
    ensures
        r@.len() == PATTERN_COUNT,
        forall|i: int| 0 <= i < PATTERN_COUNT ==> (#[trigger] r@[i])@ == spec_replacements()[i],
{
    let r: Vec<Vec<u8>> = vec![

        vec![115u8, 109u8, 111u8, 108u8],  // "smol"
        vec![107u8, 97u8, 119u8, 97u8, 105u8, 105u8, 126u8],  // "kawaii~"
        vec![102u8, 108u8, 111u8, 111u8, 102u8],  // "floof"
        vec![108u8, 117u8, 118u8],  // "luv"
        vec![98u8, 97u8, 107u8, 97u8],  // "baka"
        vec![110u8, 97u8, 110u8, 105u8],  // "nani"
        vec![110u8, 121u8, 97u8, 126u8],  // "nya~"
        vec![110u8, 121u8, 97u8, 126u8],  // "nya~"
    ];
    proof {

        assert(r@[0]@ =~= spec_replacements()[0]);
        assert(r@[1]@ =~= spec_replacements()[1]);
        assert(r@[2]@ =~= spec_replacements()[2]);
        assert(r@[3]@ =~= spec_replacements()[3]);
        assert(r@[4]@ =~= spec_replacements()[4]);
        assert(r@[5]@ =~= spec_replacements()[5]);
        assert(r@[6]@ =~= spec_replacements()[6]);
        assert(r@[7]@ =~= spec_replacements()[7]);
    }
    r
}

/// Build the kaomoji lexicon.
pub fn build_lut() -> (r: Vec<Vec<u8>>)
    ensures
        r@.len() == LUT_SIZE,
        forall|i: int| 0 <= i < LUT_SIZE ==> (#[trigger] r@[i])@ == spec_lut()[i],
{
    let r: Vec<Vec<u8>> = vec![

        vec![32u8, 114u8, 97u8, 119u8, 114u8, 32u8, 120u8, 51u8],  // " rawr x3"
        vec![32u8, 79u8, 119u8, 79u8],  // " OwO"
        vec![32u8, 85u8, 119u8, 85u8],  // " UwU"
        vec![32u8, 111u8, 46u8, 79u8],  // " o.O"
        vec![32u8, 45u8, 46u8, 45u8],  // " -.-"
        vec![32u8, 62u8, 119u8, 60u8],  // " >w<"
        vec![32u8, 40u8, 226u8, 145u8, 133u8, 203u8, 152u8, 234u8, 146u8, 179u8, 203u8, 152u8, 41u8],  // " (⑅˘꒳˘)"
        vec![32u8, 40u8, 234u8, 136u8, 141u8, 225u8, 180u8, 151u8, 234u8, 136u8, 141u8, 41u8],  // " (ꈍᴗꈍ)"
        vec![32u8, 40u8, 203u8, 152u8, 207u8, 137u8, 203u8, 152u8, 41u8],  // " (˘ω˘)"
        vec![32u8, 40u8, 85u8, 32u8, 225u8, 181u8, 149u8, 32u8, 85u8, 226u8, 157u8, 129u8, 41u8],  // " (U ᵕ U❁)"
        vec![32u8, 207u8, 131u8, 207u8, 137u8, 207u8, 131u8],  // " σωσ"
        vec![32u8, 195u8, 178u8, 207u8, 137u8, 195u8, 179u8],  // " òωó"
        vec![32u8, 40u8, 47u8, 47u8, 47u8, 203u8, 172u8, 47u8, 47u8, 47u8, 226u8, 156u8, 191u8, 41u8],  // " (///ˬ///✿)"
        vec![32u8, 40u8, 85u8, 32u8, 239u8, 185u8, 143u8, 32u8, 85u8, 41u8],  // " (U ﹏ U)"
        vec![32u8, 40u8, 32u8, 205u8, 161u8, 111u8, 32u8, 207u8, 137u8, 32u8, 205u8, 161u8, 111u8, 32u8, 41u8],  // " ( ͡o ω ͡o )"
        vec![32u8, 202u8, 152u8, 119u8, 202u8, 152u8],  // " ʘwʘ"
        vec![32u8, 58u8, 51u8],  // " :3"
        vec![32u8, 58u8, 51u8],  // " :3"
        vec![32u8, 88u8, 68u8],  // " XD"
        vec![32u8, 110u8, 121u8, 97u8, 97u8, 126u8, 126u8],  // " nyaa~~"
        vec![32u8, 109u8, 121u8, 97u8],  // " mya"
        vec![32u8, 62u8, 95u8, 60u8],  // " >_<"
        vec![32u8, 240u8, 159u8, 152u8, 179u8],  // " 😳"
        vec![32u8, 240u8, 159u8, 165u8, 186u8],  // " 🥺"
        vec![32u8, 240u8, 159u8, 152u8, 179u8, 240u8, 159u8, 152u8, 179u8, 240u8, 159u8, 152u8, 179u8],  // " 😳😳😳"
        vec![32u8, 114u8, 97u8, 119u8, 114u8],  // " rawr"
        vec![32u8, 94u8, 94u8],  // " ^^"
        vec![32u8, 94u8, 94u8, 59u8, 59u8],  // " ^^;;"
        vec![32u8, 40u8, 203u8, 134u8, 32u8, 239u8, 187u8, 140u8, 32u8, 203u8, 134u8, 41u8, 226u8, 153u8, 161u8],  // " (ˆ ﻌ ˆ)♡"
        vec![32u8, 94u8, 226u8, 128u8, 162u8, 239u8, 187u8, 140u8, 226u8, 128u8, 162u8, 94u8],  // " ^•ﻌ•^"
        vec![32u8, 47u8, 40u8, 94u8, 226u8, 128u8, 162u8, 207u8, 137u8, 226u8, 128u8, 162u8, 94u8, 41u8],  // " /(^•ω•^)"
        vec![32u8, 40u8, 226u8, 156u8, 191u8, 111u8, 207u8, 137u8, 111u8, 41u8],  // " (✿oωo)"
    ];
    proof {

        assert(r@[0]@ =~= spec_lut()[0]);
        assert(r@[1]@ =~= spec_lut()[1]);
        assert(r@[2]@ =~= spec_lut()[2]);
        assert(r@[3]@ =~= spec_lut()[3]);
        assert(r@[4]@ =~= spec_lut()[4]);
        assert(r@[5]@ =~= spec_lut()[5]);
        assert(r@[6]@ =~= spec_lut()[6]);
        assert(r@[7]@ =~= spec_lut()[7]);
        assert(r@[8]@ =~= spec_lut()[8]);
        assert(r@[9]@ =~= spec_lut()[9]);
        assert(r@[10]@ =~= spec_lut()[10]);
        assert(r@[11]@ =~= spec_lut()[11]);
        assert(r@[12]@ =~= spec_lut()[12]);
        assert(r@[13]@ =~= spec_lut()[13]);
        assert(r@[14]@ =~= spec_lut()[14]);
        assert(r@[15]@ =~= spec_lut()[15]);
        assert(r@[16]@ =~= spec_lut()[16]);
        assert(r@[17]@ =~= spec_lut()[17]);
        assert(r@[18]@ =~= spec_lut()[18]);
        assert(r@[19]@ =~= spec_lut()[19]);
        assert(r@[20]@ =~= spec_lut()[20]);
        assert(r@[21]@ =~= spec_lut()[21]);
        assert(r@[22]@ =~= spec_lut()[22]);
        assert(r@[23]@ =~= spec_lut()[23]);
        assert(r@[24]@ =~= spec_lut()[24]);
        assert(r@[25]@ =~= spec_lut()[25]);
        assert(r@[26]@ =~= spec_lut()[26]);
        assert(r@[27]@ =~= spec_lut()[27]);
        assert(r@[28]@ =~= spec_lut()[28]);
        assert(r@[29]@ =~= spec_lut()[29]);
        assert(r@[30]@ =~= spec_lut()[30]);
        assert(r@[31]@ =~= spec_lut()[31]);
    }
    r
}

} // verus!
