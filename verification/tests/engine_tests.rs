use rustmpx::engine::{
    bits_for_samples, choose_output_config, list_output_devices, producer_step, ring_capacity,
    BitQueue, DeviceProbe, ProducerAction, RateRange,
};
use rustmpx::rds::RdsConfig;
use rustmpx::sequencer::RdsGen;

fn test_gen() -> RdsGen {
    RdsGen::new(RdsConfig {
        pi: 0x1234,
        ps: b"RADIO".to_vec(),
        rt: b"Welcome to RADIO".to_vec(),
    })
}

#[test]
fn producer_halts_once_stopped() {
    // After stop is signalled, no chunk is ever produced.
    for free in [0usize, 1, 1024, 100000] {
        assert_eq!(producer_step(true, free, 0, 10000), ProducerAction::Halt);
    }
}

#[test]
fn producer_waits_on_full_fifo() {
    assert_eq!(producer_step(false, 0, 500, 10000), ProducerAction::Wait);
}

#[test]
fn producer_claims_bounded_chunk() {
    assert_eq!(
        producer_step(false, 100000, 0, 10000),
        ProducerAction::Produce { start: 0, count: 1024, new_pos: 1024 }
    );
    assert_eq!(
        producer_step(false, 300, 1024, 10000),
        ProducerAction::Produce { start: 1024, count: 300, new_pos: 1324 }
    );
}

#[test]
fn producer_wraps_source_ring() {
    // Near the end of the source the position rewinds to the start.
    assert_eq!(
        producer_step(false, 100000, 9500, 10000),
        ProducerAction::Produce { start: 0, count: 1024, new_pos: 1024 }
    );
    // A source shorter than one chunk is sliced from its start each time.
    assert_eq!(
        producer_step(false, 100000, 0, 100),
        ProducerAction::Produce { start: 0, count: 100, new_pos: 1024 }
    );
}

#[test]
fn bits_for_chunk_duration_plus_margin() {
    // 1024 samples at 192 kHz last 5.33 ms: 6 bits at 1187.5 bit/s, plus
    // the 208-bit safety margin.
    assert_eq!(bits_for_samples(1024, 192000), 214);
    assert_eq!(bits_for_samples(0, 48000), 208);
    assert_eq!(bits_for_samples(192000, 192000), 1187 + 208);
}

#[test]
fn ring_holds_two_seconds() {
    assert_eq!(ring_capacity(192000), 384000);
    assert_eq!(ring_capacity(48000), 96000);
}

#[test]
fn device_negotiation_prefers_exact_match() {
    let ranges = vec![
        RateRange { min_rate: 44100, max_rate: 48000 },
        RateRange { min_rate: 192000, max_rate: 192000 },
    ];
    assert_eq!(choose_output_config(&ranges, 192000), Some((1, 192000)));
    assert_eq!(choose_output_config(&ranges, 44200), Some((0, 44200)));
}

#[test]
fn device_negotiation_takes_nearest_bound() {
    let ranges = vec![
        RateRange { min_rate: 44100, max_rate: 48000 },
        RateRange { min_rate: 192000, max_rate: 192000 },
    ];
    assert_eq!(choose_output_config(&ranges, 50000), Some((0, 48000)));
    assert_eq!(choose_output_config(&ranges, 150000), Some((1, 192000)));
}

#[test]
fn device_negotiation_first_wins_ties() {
    let ranges = vec![
        RateRange { min_rate: 100, max_rate: 100 },
        RateRange { min_rate: 300, max_rate: 300 },
    ];
    assert_eq!(choose_output_config(&ranges, 200), Some((0, 100)));
    assert_eq!(choose_output_config(&Vec::new(), 48000), None);
}

#[test]
fn bit_queue_hands_out_stream_prefix() {
    let mut q = BitQueue::new(test_gen());
    let first = q.take(214);
    let second = q.take(214);
    assert_eq!(first.len(), 214);
    assert_eq!(second.len(), 214);
    let reference = test_gen().generate(2375);
    assert_eq!(first, reference[0..214].to_vec());
    assert_eq!(second, reference[214..428].to_vec());
    // A request beyond the buffered bits tops the queue up again.
    let rest = q.take(2375);
    assert_eq!(rest.len(), 2375);
    assert_eq!(rest[0..2375 - 428].to_vec(), reference[428..2375].to_vec());
}

#[test]
fn device_list_keeps_enumeration_indices() {
    let probes = vec![
        DeviceProbe { name: Some("HDMI".to_string()), channels: None },
        DeviceProbe { name: Some("Speakers".to_string()), channels: Some(vec![2, 8, 4]) },
        DeviceProbe { name: None, channels: Some(vec![2]) },
        DeviceProbe { name: Some("Mute".to_string()), channels: Some(vec![0]) },
    ];
    let infos = list_output_devices(&probes);
    assert_eq!(infos.len(), 2);
    assert_eq!(infos[0].index, 1);
    assert_eq!(infos[0].name, "Speakers");
    assert_eq!(infos[0].channels, 8);
    assert_eq!(infos[1].index, 2);
    assert_eq!(infos[1].name, "Unknown");
    assert_eq!(infos[1].channels, 2);
}
