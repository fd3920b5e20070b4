//! Tests of the bit-parallel multi-pattern matcher.

use uwuifier::bitap::Bitap8x16;

#[test]
fn bitap_test_bitap() {
    let mut b = Bitap8x16::new();
    assert_eq!(b.next(b'c'), None);
    assert_eq!(b.next(b'u'), None);
    assert_eq!(b.next(b't'), None);
    let next = b.next(b'e').unwrap();
    assert_eq!(next.match_len, 4);
    assert_eq!(next.replace_len, 7);

    b.reset();
    assert_eq!(b.next(b'w'), None);
    assert_eq!(b.next(b'h'), None);
    assert_eq!(b.next(b'a'), None);
    let next = b.next(b't').unwrap();
    assert_eq!(next.match_len, 4);
    assert_eq!(next.replace_len, 4);

    assert_eq!(b.next(b'w'), None);
    assert_eq!(b.next(b'h'), None);
    assert_eq!(b.next(b'a'), None);
    assert_eq!(b.next(b'a'), None);
}

#[test]
fn bitap_neon_test_bitap() {
    let mut b = Bitap8x16::new();
    assert_eq!(b.next(b'c'), None);
    assert_eq!(b.next(b'u'), None);
    assert_eq!(b.next(b't'), None);
    let next = b.next(b'e').unwrap();
    assert_eq!(next.match_len, 4);
    assert_eq!(next.replace_len, 7);

    b.reset();
    assert_eq!(b.next(b'w'), None);
    assert_eq!(b.next(b'h'), None);
    assert_eq!(b.next(b'a'), None);
    let next = b.next(b't').unwrap();
    assert_eq!(next.match_len, 4);
    assert_eq!(next.replace_len, 4);

    assert_eq!(b.next(b'w'), None);
    assert_eq!(b.next(b'h'), None);
    assert_eq!(b.next(b'a'), None);
    assert_eq!(b.next(b'a'), None);

    assert_eq!(b.next(b'W'), None);
    assert_eq!(b.next(b'h'), None);
    assert_eq!(b.next(b'A'), None);
    let next = b.next(b't').unwrap();
    assert_eq!(next.match_len, 4);
    assert_eq!(next.replace_len, 4);
}

#[test]
fn bitap_reports_replacement_bytes() {
    let mut b = Bitap8x16::new();
    assert_eq!(b.next(b'l'), None);
    assert_eq!(b.next(b'o'), None);
    assert_eq!(b.next(b'v'), None);
    let m = b.next(b'e').unwrap();
    assert_eq!(m.match_len, 4);
    assert_eq!(m.replacement, b"luv".to_vec());
    assert_eq!(m.replace_len, 3);
}

#[test]
fn bitap_lowest_index_wins() {
    // "small" completes; no other pattern ends in 'l'.
    let mut b = Bitap8x16::new();
    for &c in b"small" {
        let r = b.next(c);
        if c == b'l' && r.is_some() {
            let m = r.unwrap();
            assert_eq!(m.match_len, 5);
            assert_eq!(m.replacement, b"smol".to_vec());
            return;
        }
    }
    panic!("small was not matched");
}

#[test]
fn bitap_match_can_start_mid_stream() {
    // The start bit is OR'd in on every byte, so a pattern may begin
    // anywhere after a reset.
    let mut b = Bitap8x16::new();
    assert_eq!(b.next(b'x'), None);
    assert_eq!(b.next(b'm'), None);
    assert_eq!(b.next(b'e'), None);
    assert_eq!(b.next(b'o'), None);
    let m = b.next(b'w').unwrap();
    assert_eq!(m.match_len, 4);
    assert_eq!(m.replacement, b"nya~".to_vec());
}
