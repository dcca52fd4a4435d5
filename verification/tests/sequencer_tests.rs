use rustmpx::rds::{group_0a, group_2a, RdsConfig};
use rustmpx::sequencer::RdsGen;

fn test_cfg() -> RdsConfig {
    RdsConfig { pi: 0x1234, ps: b"RADIO".to_vec(), rt: b"Welcome to RADIO".to_vec() }
}

#[test]
fn cadence_without_logo() {
    let mut gen = RdsGen::new(test_cfg());
    let cfg = test_cfg();
    // From the start of the program-service cycle: two 0A groups, then 2A
    // groups (the program-service counter only advances on the 0A branch).
    assert_eq!(gen.next_bits(), group_0a(&cfg, 0));
    assert_eq!(gen.next_bits(), group_0a(&cfg, 1));
    assert_eq!(gen.next_bits(), group_2a(&cfg, 0));
    assert_eq!(gen.next_bits(), group_2a(&cfg, 1));
    assert_eq!(gen.next_bits(), group_2a(&cfg, 2));
}

#[test]
fn generate_returns_exact_bit_count() {
    let mut gen = RdsGen::new(test_cfg());
    for &n in &[0usize, 1, 103, 104, 105, 500, 2375] {
        let bits = gen.generate(n);
        assert_eq!(bits.len(), n);
        assert!(bits.iter().all(|&b| b <= 1));
    }
}

#[test]
fn generate_concatenates_emissions_in_order() {
    let mut gen = RdsGen::new(test_cfg());
    let cfg = test_cfg();
    let bits = gen.generate(260);
    let mut expected = group_0a(&cfg, 0);
    expected.extend(group_0a(&cfg, 1));
    expected.extend(group_2a(&cfg, 0));
    expected.truncate(260);
    assert_eq!(bits, expected);
}

#[test]
fn logo_chunks_preempt_groups() {
    let mut gen = RdsGen::new(test_cfg());
    let logo: Vec<u8> = (0..150).map(|i| (i % 2) as u8).collect();
    gen.set_logo_bits(Some(logo.clone()));
    // The program-service counter starts at 0, a multiple of five, so the
    // logo stream is emitted chunk by chunk with a wrap-around cursor.
    assert_eq!(gen.next_bits(), logo[0..104].to_vec());
    assert_eq!(gen.next_bits(), logo[104..150].to_vec());
    assert_eq!(gen.next_bits(), logo[0..104].to_vec());
}

#[test]
fn empty_logo_behaves_like_none() {
    let mut gen = RdsGen::new(test_cfg());
    gen.set_logo_bits(Some(Vec::new()));
    let cfg = test_cfg();
    assert_eq!(gen.next_bits(), group_0a(&cfg, 0));
}

#[test]
fn next_logo_chunk_short_stream_repeats() {
    let mut gen = RdsGen::new(test_cfg());
    let logo: Vec<u8> = vec![1, 0, 1, 1, 0, 0, 1, 0, 1, 1];
    gen.set_logo_bits(Some(logo.clone()));
    assert_eq!(gen.next_logo_chunk(104), Some(logo.clone()));
    assert_eq!(gen.next_logo_chunk(104), Some(logo.clone()));
}

#[test]
fn next_logo_chunk_none_without_logo() {
    let mut gen = RdsGen::new(test_cfg());
    assert_eq!(gen.next_logo_chunk(104), None);
}
