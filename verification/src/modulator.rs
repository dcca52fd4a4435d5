//! Integer front end of the BPSK subcarrier modulator: differential
//! encoding of the bit stream into a ±1 symbol sequence, the oversampling
//! ratio derived from the sample rate and the fixed RDS bit rate, the
//! pulse-shaping filter's tap count, and the zero-order impulse train that
//! the raised-cosine filter is applied to.
//!
//! The fixed RDS bit rate is 1187.5 bit/s; to stay in integers the ratio
//! `fs / 1187.5` is handled as the rational `4 * fs / 4750`.

use vstd::prelude::*;

verus! {

/// A configuration that cannot drive the modulator.
#[derive(Clone, Copy, Debug, PartialEq, Eq, Structural)]
pub enum ModError {
    /// The sample rate gives fewer than four samples per symbol.
    SampleRateTooLow,
}

/// The oversampling ratio: the nearest integer to `fs / 1187.5`, written
/// with the round-half-up division `(4 * fs + 2375) / 4750`.
pub open spec fn sps_spec(fs: u32) -> int {
    (4 * fs + 2375) / 4750
}

/// Samples per symbol for a sample rate, rejecting rates below four
/// samples per symbol (`fs / 1187.5 < 4`, that is `fs < 4750`).
pub fn samples_per_symbol(fs: u32) -> (r: Result<usize, ModError>)
    ensures
        fs >= 4750 ==> r == Ok::<usize, ModError>(sps_spec(fs) as usize),
        fs < 4750 ==> r == Err::<usize, ModError>(ModError::SampleRateTooLow),
        r matches Ok(sps) ==> {
            &&& sps >= 4
            &&& 4750 * sps <= 4 * fs + 2375 < 4750 * (sps + 1)
        },
{
    if fs < 4750 {
        Err(ModError::SampleRateTooLow)
    } else {
        let sps64: u64 = (4 * (fs as u64) + 2375) / 4750;
        assert(sps64 == sps_spec(fs));
        assert(sps64 >= 4 && sps64 < 0x100000000);
        Ok(sps64 as usize)
    }
}

/// The pulse-shaping filter's tap count: six symbol periods forced odd, and
/// never below 41.
pub open spec fn num_taps_spec(sps: int) -> int {
    if 6 * sps + 1 < 41 {
        41
    } else {
        6 * sps + 1
    }
}

/// Number of raised-cosine filter taps for an oversampling ratio.
pub fn num_taps_for(sps: usize) -> (r: usize)
    requires
        6 * sps + 1 <= usize::MAX,
    ensures
        r == num_taps_spec(sps as int),
        r % 2 == 1,
        r >= 41,
{
    let t = 6 * sps + 1;
    if t < 41 {
        41
    } else {
        t
    }
}

/// The running phase after the first `n` bits have been encoded: it starts
/// at +1 and flips on every set bit.
pub open spec fn phase_after(bits: Seq<u8>, n: int) -> i8
    decreases n,
{
    if n <= 0 {
        1
    } else if bits[n - 1] != 0 {
        if phase_after(bits, n - 1) == 1 {
            -1i8
        } else {
            1i8
        }
    } else {
        phase_after(bits, n - 1)
    }
}

/// The differentially encoded symbol sequence of a bit stream: symbol `i`
/// is the running phase after bit `i` has been consumed.
pub open spec fn diff_encode_spec(bits: Seq<u8>) -> Seq<i8> {
    Seq::new(bits.len(), |i: int| phase_after(bits, i + 1))
}

/// Differentially encode a bit stream into ±1 symbols: the phase starts at
/// +1, flips whenever the input bit is set, and the current phase is
/// emitted for every bit.  A run of zero bits therefore holds a constant
/// phase, which receivers use for symbol-clock recovery.
pub fn differential_encode(bits: &Vec<u8>) -> (r: Vec<i8>)
    ensures
        r@ == diff_encode_spec(bits@),
{
    let mut out: Vec<i8> = Vec::with_capacity(bits.len());
    let mut phase: i8 = 1;
    let mut i: usize = 0;
    while i < bits.len()
        invariant
            i <= bits@.len(),
            phase == phase_after(bits@, i as int),
            phase == 1 || phase == -1,
            out@.len() == i,
            forall|j: int| 0 <= j < i ==> out@[j] == phase_after(bits@, j + 1),
        decreases bits@.len() - i,
    {
        if bits[i] != 0 {
            phase = -phase;
        }
        out.push(phase);
        i = i + 1;
    }
    proof {
        assert(out@ =~= diff_encode_spec(bits@));
    }
    out
}

/// Sample `j` of the impulse train: the symbol value at the first sample
/// of each period of `sps` samples, zero elsewhere.
pub open spec fn impulse_at(symbols: Seq<i8>, sps: int, j: int) -> i8 {
    if j % sps == 0 {
        symbols[j / sps]
    } else {
        0i8
    }
}

/// The zero-order impulse train over a symbol sequence: each symbol sits at
/// the first sample of its period of `sps` samples and every other sample
/// is zero.
pub fn impulse_train(symbols: &Vec<i8>, sps: usize) -> (r: Vec<i8>)
    requires
        sps >= 1,
        symbols@.len() * sps <= usize::MAX,
    ensures
        r@.len() == symbols@.len() * sps,
        forall|j: int|
            0 <= j < r@.len() ==> r@[j] == impulse_at(symbols@, sps as int, j),
{
    let n = symbols.len();
    let total = n * sps;
    let mut out: Vec<i8> = Vec::with_capacity(total);
    let mut j: usize = 0;
    while j < total
        invariant
            j <= total,
            total == n * sps,
            n == symbols@.len(),
            sps >= 1,
            out@.len() == j,
            forall|m: int| 0 <= m < j ==> out@[m] == impulse_at(symbols@, sps as int, m),
        decreases total - j,
    {
        proof {
            assert(j / sps < n) by (nonlinear_arith)
                requires
                    j < n * sps,
                    sps >= 1,
            ;
        }
        if j % sps == 0 {
            let s = symbols[j / sps];
            out.push(s);
        } else {
            out.push(0);
        }
        j = j + 1;
    }
    out
}

/// A run of zero bits leaves the phase at its starting value: every symbol
/// of the encoding of an all-zero bit stream is +1, so the encoded sequence
/// never alternates.
pub proof fn lemma_diff_encode_all_zero(bits: Seq<u8>)
    requires
        forall|j: int| 0 <= j < bits.len() ==> bits[j] == 0,
    ensures
        forall|i: int|
            0 <= i < bits.len() ==> #[trigger] diff_encode_spec(bits)[i] == 1i8,
{
    assert forall|i: int| 0 <= i < bits.len() implies #[trigger] diff_encode_spec(bits)[i]
        == 1i8 by {
        lemma_phase_constant_on_zeros(bits, 0, i + 1);
    }
}

/// A single set bit at position `k` flips the phase there and the flip
/// persists: symbols before `k` are +1 and symbols from `k` on are -1.
pub proof fn lemma_diff_encode_single_one(bits: Seq<u8>, k: int)
    requires
        0 <= k < bits.len(),
        bits[k] != 0,
        forall|j: int| 0 <= j < bits.len() && j != k ==> bits[j] == 0,
    ensures
        forall|i: int|
            0 <= i < k ==> #[trigger] diff_encode_spec(bits)[i] == 1i8,
        forall|i: int|
            k <= i < bits.len() ==> #[trigger] diff_encode_spec(bits)[i] == -1i8,
{
    assert forall|i: int| 0 <= i < k implies #[trigger] diff_encode_spec(bits)[i] == 1i8 by {
        lemma_phase_constant_on_zeros(bits, 0, i + 1);
    }
    assert(phase_after(bits, k) == 1) by {
        lemma_phase_constant_on_zeros(bits, 0, k);
    }
    assert forall|i: int| k <= i < bits.len() implies #[trigger] diff_encode_spec(bits)[i]
        == -1i8 by {
        lemma_phase_constant_on_zeros(bits, k + 1, i + 1);
    }
}

/// The phase does not move across a stretch of zero bits.
proof fn lemma_phase_constant_on_zeros(bits: Seq<u8>, a: int, b: int)
    requires
        a <= b,
        forall|j: int| a <= j < b ==> bits[j] == 0,
    ensures
        phase_after(bits, b) == phase_after(bits, a),
    decreases b - a,
{
    if a < b {
        lemma_phase_constant_on_zeros(bits, a, b - 1);
    }
}

} // verus!
