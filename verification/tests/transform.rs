//! Tests of the four rewrite passes and their composition.

use uwuifier::passes::{emoji, nya_ify, pad_zeros, replace_and_stutter, substitute};
use uwuifier::rng::XorShift32;
use uwuifier::tables::build_lut;
use uwuifier::{round_up16, uwuify};

/// Run the whole transform over a string, with fresh scratch buffers.
fn transform(s: &str) -> Vec<u8> {
    let bytes = s.as_bytes().to_vec();
    let cap = 16 * round_up16(bytes.len());
    let mut temp1 = vec![0u8; cap];
    let mut temp2 = vec![0u8; cap];
    let len = uwuify(&bytes, bytes.len(), &mut temp1, &mut temp2);
    temp2[..len].to_vec()
}

/// A buffer holding `s` zero-padded to a whole number of blocks.
fn padded(s: &[u8]) -> Vec<u8> {
    let mut v = s.to_vec();
    v.resize(round_up16(s.len()), 0);
    v
}

#[test]
fn test_uwuify_neon() {
    let mut temp_bytes1 = vec![0u8; 1024];
    let mut temp_bytes2 = vec![0u8; 1024];

    let s = "Hey, I think I really love you. Do you want a headpat?";
    let bytes = s.as_bytes().to_vec();
    let len = uwuify(&bytes, bytes.len(), &mut temp_bytes1, &mut temp_bytes2);
    let res = std::str::from_utf8(&temp_bytes2[..len]).unwrap();
    assert_eq!(
        res,
        "hey, (ꈍᴗꈍ) i think i weawwy wuv you. ^•ﻌ•^ do y-you want a headpat?"
    );
}

#[test]
fn test_uwuify_str_neon() {
    let s = "Hey, I think I really love you. Do you want a headpat?";
    let res = uwuifier::uwuify_str(s);
    assert_eq!(
        res,
        "hey, (ꈍᴗꈍ) i think i weawwy wuv you. ^•ﻌ•^ do y-you want a headpat?"
    );
}

#[test]
fn uwuify_hello_world() {
    assert_eq!(transform("hello world"), b"hewwo wowwd".to_vec());
}

#[test]
fn uwuify_is_deterministic() {
    // Same input, fixed seed: the output is identical on every run.
    let s = "Hey, I think I really love you. Do you want a headpat?";
    assert_eq!(transform(s), transform(s));
    assert_eq!(transform("mixed. text, with! marks."), transform("mixed. text, with! marks."));
}

#[test]
fn uwuify_empty_input() {
    let bytes: Vec<u8> = Vec::new();
    let mut temp1: Vec<u8> = Vec::new();
    let mut temp2: Vec<u8> = Vec::new();
    let len = uwuify(&bytes, 0, &mut temp1, &mut temp2);
    assert_eq!(len, 0);
}

#[test]
fn output_never_exceeds_worst_case() {
    // The documented worst case: sixteen times the input length rounded
    // up to a whole block, for the composition and for every pass.
    for s in [
        "a",
        "hello world",
        "What?!. , ! . small cute fluff love stupid what meow",
        "................................",
        " n n n n n n n n n n n n n n n ",
    ] {
        let bytes = s.as_bytes();
        let bound = 16 * round_up16(bytes.len());
        assert!(transform(s).len() <= bound);

        let input = padded(bytes);
        let mut out = vec![0u8; bound];
        assert!(substitute(&input, bytes.len(), &mut out) <= bound);
        assert!(nya_ify(&input, bytes.len(), &mut out) <= bound);
        let mut rng = XorShift32::new(&[117, 119, 117, 33]);
        assert!(replace_and_stutter(&mut rng, &input, bytes.len(), &mut out) <= bound);
        let lut = build_lut();
        let mut rng = XorShift32::new(&[117, 119, 117, 33]);
        assert!(emoji(&mut rng, &lut, &input, bytes.len(), &mut out) <= bound);
    }
}

#[test]
fn substitution_of_cute_is_exact() {
    // The replacement lands flush at the end of the buffer: the length
    // bookkeeping leaves no trailing bytes.
    let input = b"cute".to_vec();
    let mut out = vec![0u8; 2 * round_up16(input.len())];
    let len = substitute(&input, 4, &mut out);
    assert_eq!(&out[..len], b"kawaii~");
}

#[test]
fn substitution_is_case_insensitive() {
    let input = b"a SMALL cat".to_vec();
    let mut out = vec![0u8; 2 * round_up16(input.len())];
    let len = substitute(&input, input.len(), &mut out);
    assert_eq!(&out[..len], b"a smol cat");
}

#[test]
fn substitution_resets_after_match() {
    // After "meow" completes the matcher resets, so the trailing "hat"
    // cannot complete "what" with bytes from before the match.
    let input = b"meowhat".to_vec();
    let mut out = vec![0u8; 2 * round_up16(input.len())];
    let len = substitute(&input, input.len(), &mut out);
    assert_eq!(&out[..len], b"nya~hat");
}

#[test]
fn substitution_delta_accounting() {
    // The sum of per-match deltas equals the total length change:
    // "cute" -> "kawaii~" (+3) and "love" -> "luv" (-1).
    let input = b"cute love".to_vec();
    let mut out = vec![0u8; 2 * round_up16(input.len())];
    let len = substitute(&input, input.len(), &mut out);
    assert_eq!(&out[..len], b"kawaii~ luv");
    assert_eq!(len as i64 - input.len() as i64, (7 - 4) + (3 - 4));
}

#[test]
fn nya_pass_inserts_after_every_qualifying_n() {
    let bytes = b"hello nice nest";
    let input = padded(bytes);
    let mut out = vec![0u8; 2 * round_up16(bytes.len())];
    let len = nya_ify(&input, bytes.len(), &mut out);
    assert_eq!(&out[..len], b"hello nyice nyest");
}

#[test]
fn stutter_pass_substitutes_letters() {
    // The first random bit of the fixed seed declines the stutter, so
    // only the letter substitution shows.
    let bytes = b"hello there world";
    let input = padded(bytes);
    let mut out = vec![0u8; 2 * round_up16(bytes.len())];
    let mut rng = XorShift32::new(&[117, 119, 117, 33]);
    let len = replace_and_stutter(&mut rng, &input, bytes.len(), &mut out);
    assert_eq!(&out[..len], b"hewwo thewe wowwd");
}

#[test]
fn emoji_pass_inserts_after_punctuation() {
    let bytes = b"yes. indeed";
    let input = padded(bytes);
    let mut out = vec![0u8; 2 * round_up16(bytes.len())];
    let lut = build_lut();
    let mut rng = XorShift32::new(&[117, 119, 117, 33]);
    let len = emoji(&mut rng, &lut, &input, bytes.len(), &mut out);
    assert_eq!(&out[..len], b"yes. rawr x3 indeed");
}

#[test]
fn emoji_pass_skips_punctuation_runs() {
    // No emoji after an ellipsis.
    let bytes = b"wow... ok";
    let input = padded(bytes);
    let mut out = vec![0u8; 2 * round_up16(bytes.len())];
    let lut = build_lut();
    let mut rng = XorShift32::new(&[117, 119, 117, 33]);
    let len = emoji(&mut rng, &lut, &input, bytes.len(), &mut out);
    assert_eq!(&out[..len], b"wow... ok");
}

#[test]
fn boundary_length_not_multiple_of_16() {
    // An 18-byte input crosses one block boundary; the padding must not
    // corrupt the reported length or leak into the output.
    let res = transform("What is this. meow");
    assert_eq!(res, b"nani is this. XD nyya~".to_vec());
}

#[test]
fn pad_zeros_clears_only_the_tail() {
    let mut buf = vec![7u8; 32];
    pad_zeros(&mut buf, 18);
    assert_eq!(&buf[..18], &[7u8; 18]);
    assert_eq!(&buf[18..32], &[0u8; 14]);
}

#[test]
fn round_up16_examples() {
    assert_eq!(round_up16(0), 0);
    assert_eq!(round_up16(1), 16);
    assert_eq!(round_up16(16), 16);
    assert_eq!(round_up16(17), 32);
    assert_eq!(round_up16(54), 64);
}
