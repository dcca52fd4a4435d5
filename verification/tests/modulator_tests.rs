use rustmpx::modulator::{
    differential_encode, impulse_train, num_taps_for, samples_per_symbol, ModError,
};

#[test]
fn samples_per_symbol_rounds_to_nearest() {
    // 192000 / 1187.5 = 161.68... rounds to 162.
    assert_eq!(samples_per_symbol(192000), Ok(162));
    // 4750 / 1187.5 = 4 exactly, the lowest accepted rate.
    assert_eq!(samples_per_symbol(4750), Ok(4));
    // 47500 / 1187.5 = 40 exactly.
    assert_eq!(samples_per_symbol(47500), Ok(40));
}

#[test]
fn samples_per_symbol_rejects_low_rates() {
    assert_eq!(samples_per_symbol(4749), Err(ModError::SampleRateTooLow));
    assert_eq!(samples_per_symbol(0), Err(ModError::SampleRateTooLow));
}

#[test]
fn num_taps_floor_and_oddness() {
    // Six periods of 4 samples give 25 taps, below the floor of 41.
    assert_eq!(num_taps_for(4), 41);
    // Six periods of 162 samples give 973 taps, which is odd.
    assert_eq!(num_taps_for(162), 973);
    for sps in 1..200usize {
        let t = num_taps_for(sps);
        assert!(t % 2 == 1 && t >= 41);
    }
}

#[test]
fn differential_encode_constant_zero_run() {
    // A run of zero bits produces a constant, non-alternating phase.
    let bits = vec![0u8; 16];
    let symbols = differential_encode(&bits);
    assert_eq!(symbols, vec![1i8; 16]);
}

#[test]
fn differential_encode_single_one_flips_persistently() {
    let bits = vec![0u8, 0, 0, 1, 0, 0, 0, 0];
    let symbols = differential_encode(&bits);
    assert_eq!(symbols, vec![1i8, 1, 1, -1, -1, -1, -1, -1]);
}

#[test]
fn differential_encode_mixed() {
    let bits = vec![0u8, 1, 0, 0, 1, 0];
    let symbols = differential_encode(&bits);
    assert_eq!(symbols, vec![1i8, -1, -1, -1, 1, 1]);
}

#[test]
fn impulse_train_places_symbols_at_period_starts() {
    let symbols = vec![1i8, -1, 1];
    let train = impulse_train(&symbols, 4);
    assert_eq!(
        train,
        vec![1i8, 0, 0, 0, -1, 0, 0, 0, 1, 0, 0, 0]
    );
}

#[test]
fn impulse_train_unit_period() {
    let symbols = vec![1i8, -1, -1];
    assert_eq!(impulse_train(&symbols, 1), symbols);
}
