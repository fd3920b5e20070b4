//! Tests of the chunked pipeline, its ticketing protocol, and the
//! deterministic generator behind the random rewrites.

use uwuifier::pipeline::{read_step, run_pipeline, ReadEvent, TicketCounter, WriteGate};
use uwuifier::rng::XorShift32;
use uwuifier::{round_up16, uwuify};

/// Run the whole transform over bytes, with fresh scratch buffers.
fn transform(bytes: &[u8]) -> Vec<u8> {
    let input = bytes.to_vec();
    let cap = 16 * round_up16(bytes.len());
    let mut temp1 = vec![0u8; cap];
    let mut temp2 = vec![0u8; cap];
    let len = uwuify(&input, bytes.len(), &mut temp1, &mut temp2);
    temp2[..len].to_vec()
}

#[test]
fn pipeline_output_is_per_chunk_transforms_in_order() {
    // Chunks are written in ticket order: the pipeline's output is the
    // concatenation of the per-chunk transforms, chunk 0 first.
    let text = b"Hey, I think I really love you. Do you want a headpat?";
    let out = run_pipeline(&text.to_vec(), 16);
    let mut expected = Vec::new();
    let mut off = 0;
    while off < text.len() {
        let end = (off + 16).min(text.len());
        expected.extend_from_slice(&transform(&text[off..end]));
        off = end;
    }
    assert_eq!(out, expected);
    assert_eq!(
        std::str::from_utf8(&out).unwrap(),
        "hey, XD i think i weawwy wuv you. XD do you want a headpat?"
    );
}

#[test]
fn pipeline_transparency_on_inert_bytes() {
    // Chunk-boundary transparency: on a stream no pass rewrites, the
    // chunked pipeline and one whole-stream transform agree exactly,
    // for an input a whole number of chunks long.
    let input = vec![b'a'; 32];
    let out = run_pipeline(&input, 16);
    assert_eq!(out, transform(&input));
    assert_eq!(out, input);
}

#[test]
fn pipeline_empty_input() {
    let out = run_pipeline(&Vec::new(), 16);
    assert_eq!(out, Vec::<u8>::new());
}

#[test]
fn pipeline_exact_chunk_multiple() {
    // A stream ending exactly on a chunk boundary gains no extra bytes
    // from the final empty read.
    let input = b"hello world then".to_vec();
    assert_eq!(input.len(), 16);
    let out = run_pipeline(&input, 16);
    assert_eq!(out, transform(&input));
}

#[test]
fn write_gate_admits_tickets_in_order() {
    let mut gate = WriteGate::new();
    // Workers 2 and 1 finish their transforms first, but are refused
    // until ticket 0 has written.
    assert!(!gate.may_write(2));
    assert!(!gate.may_write(1));
    assert!(gate.may_write(0));
    gate.finish_write(0);
    assert!(!gate.may_write(2));
    assert!(gate.may_write(1));
    gate.finish_write(1);
    assert!(gate.may_write(2));
    gate.finish_write(2);
    assert!(gate.may_write(3));
}

#[test]
fn ticket_counter_claims_in_order() {
    let mut tickets = TicketCounter::new();
    assert_eq!(tickets.claim(), 0);
    assert_eq!(tickets.claim(), 1);
    assert_eq!(tickets.claim(), 2);
}

#[test]
fn read_step_fills_and_finishes() {
    // Bytes accumulate until the chunk is full or the stream ends;
    // interruptions are retried without progress.
    assert_eq!(read_step(0, 8, ReadEvent::Bytes(3)), (3, false));
    assert_eq!(read_step(3, 8, ReadEvent::Interrupted), (3, false));
    assert_eq!(read_step(3, 8, ReadEvent::Bytes(5)), (8, true));
    assert_eq!(read_step(0, 8, ReadEvent::Bytes(0)), (0, true));
}

#[test]
fn rng_fixed_seed_sequence() {
    let mut rng = XorShift32::new(&[117, 119, 117, 33]);
    assert_eq!(rng.gen_u32(), 3891593728);
    assert_eq!(rng.gen_u32(), 2221675634);
    assert_eq!(rng.gen_u32(), 928940309);
    assert_eq!(rng.gen_u32(), 1094695975);

    let mut rng = XorShift32::new(&[117, 119, 117, 33]);
    assert_eq!(rng.gen_bits(5), 0);
    assert_eq!(rng.gen_bits(5), 18);
    assert_eq!(rng.gen_bits(5), 21);
    assert_eq!(rng.gen_bits(5), 7);

    let mut rng = XorShift32::new(&[117, 119, 117, 33]);
    assert_eq!(rng.gen_bool(), false);
    assert_eq!(rng.gen_bool(), false);
    assert_eq!(rng.gen_bool(), true);
    assert_eq!(rng.gen_bool(), true);
}
