use hab_sup::fragment::{fragment, reassemble, FRAGMENT_CHUNK, FRAGMENT_HEADER};
use hab_sup::gossip::MTU;

#[test]
fn small_payloads_travel_whole() {
    let data = b"one small frame".to_vec();
    let frags = fragment(&data);
    assert_eq!(frags.len(), 1);
    assert!(frags[0].len() <= MTU);
    assert_eq!(reassemble(&frags).unwrap(), data);
}

#[test]
fn large_payloads_round_trip() {
    let data: Vec<u8> = (0..3000u32).map(|i| (i % 251) as u8).collect();
    let frags = fragment(&data);
    assert_eq!(frags.len(), 3);
    for f in &frags {
        assert!(f.len() <= MTU);
    }
    assert_eq!(frags[0].len(), FRAGMENT_HEADER + FRAGMENT_CHUNK);
    assert_eq!(reassemble(&frags).unwrap(), data);
}

#[test]
fn an_exact_multiple_of_the_chunk_round_trips() {
    let data = vec![7u8; FRAGMENT_CHUNK * 2];
    let frags = fragment(&data);
    assert_eq!(frags.len(), 2);
    assert_eq!(reassemble(&frags).unwrap(), data);
}

#[test]
fn the_empty_payload_is_one_empty_fragment() {
    let frags = fragment(b"");
    assert_eq!(frags.len(), 1);
    assert_eq!(frags[0].len(), FRAGMENT_HEADER);
    assert_eq!(reassemble(&frags).unwrap(), Vec::<u8>::new());
}

#[test]
fn a_wrong_sequence_number_rejects_the_run() {
    let data = vec![1u8; 2500];
    let mut frags = fragment(&data);
    frags.swap(0, 1);
    assert!(reassemble(&frags).is_none());
}

#[test]
fn a_missing_fragment_rejects_the_run() {
    let data = vec![1u8; 2500];
    let mut frags = fragment(&data);
    frags.pop();
    assert!(reassemble(&frags).is_none());
}

#[test]
fn a_wrong_count_rejects_the_run() {
    let data = vec![1u8; 100];
    let mut frags = fragment(&data);
    frags[0][2] = 9;
    assert!(reassemble(&frags).is_none());
}

#[test]
fn a_short_middle_chunk_rejects_the_run() {
    let data = vec![1u8; 2500];
    let mut frags = fragment(&data);
    frags[0].pop();
    assert!(reassemble(&frags).is_none());
}
