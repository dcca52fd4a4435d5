//! Decision logic of the real-time streaming engine.
//!
//! The engine couples a background producer to a hardware-driven consumer
//! through a bounded FIFO.  Everything the producer decides — whether to
//! halt, wait for free space, which slice of the looping source buffer to
//! render next, and how many sequencer bits a chunk consumes — is computed
//! here from plain values; the caller performs the waiting, the rendering
//! and the pushes.  Device negotiation (choosing the output configuration
//! whose supported rate range lies closest to the requested rate) and the
//! summary of an enumerated device list are decided here as well.

use vstd::prelude::*;
use crate::sequencer::{RdsGen, emissions, gen_steps};

verus! {

broadcast use vstd::string::group_string_axioms;

/// Largest number of samples the producer renders per iteration.
pub const PRODUCER_CHUNK: usize = 1024;

/// Extra sequencer bits kept queued beyond a chunk's own need.
pub const BIT_SAFETY_MARGIN: usize = 208;

/// One decision of the producer loop.
#[derive(Clone, Copy, Debug, PartialEq, Eq)]
pub enum ProducerAction {
    /// The stop flag was set: the loop ends and nothing more is pushed.
    Halt,
    /// The FIFO has no free space: pause briefly and ask again.
    Wait,
    /// Render `count` source samples starting at `start`, then continue
    /// from `new_pos`.
    Produce {
        /// First source index of the slice to render.
        start: usize,
        /// Number of samples to render.
        count: usize,
        /// Source position for the next iteration.
        new_pos: usize,
    },
}

/// One iteration of the producer loop, decided from the stop flag, the
/// FIFO's free space, the current position in the source buffer and the
/// source length.  The source is treated as a ring: when the claimed chunk
/// would run past its end, the position rewinds to the start first.
pub fn producer_step(stopped: bool, free_len: usize, pos: usize, src_len: usize) -> (r:
    ProducerAction)
    requires
        src_len >= 1,
        pos <= usize::MAX - PRODUCER_CHUNK,
    ensures
        stopped ==> r is Halt,
        !stopped && vstd::math::min(free_len as int, PRODUCER_CHUNK as int) == 0 ==> r is Wait,
        !stopped && vstd::math::min(free_len as int, PRODUCER_CHUNK as int) > 0 ==> {
            let samples = vstd::math::min(free_len as int, PRODUCER_CHUNK as int);
            let p = if pos + samples > src_len {
                0
            } else {
                pos as int
            };
            &&& r matches ProducerAction::Produce { start, count, new_pos } ==> {
                &&& start == p
                &&& count == vstd::math::min(samples, src_len - p)
                &&& new_pos == p + samples
                &&& count >= 1
                &&& p + count <= src_len
            }
            &&& r is Produce
        },
{
    if stopped {
        return ProducerAction::Halt;
    }
    let samples = if free_len < PRODUCER_CHUNK {
        free_len
    } else {
        PRODUCER_CHUNK
    };
    if samples == 0 {
        return ProducerAction::Wait;
    }
    let start = if pos + samples > src_len {
        0
    } else {
        pos
    };
    let count = if samples < src_len - start {
        samples
    } else {
        src_len - start
    };
    ProducerAction::Produce { start, count, new_pos: start + samples }
}

/// The sequencer bits one chunk of samples consumes: the chunk's duration
/// times the RDS bit rate of 1187.5 bit/s (as `samples * 2375 / (2 * fs)`),
/// plus the fixed safety margin.
pub open spec fn bits_for_samples_spec(samples: int, fs: int) -> int {
    samples * 2375 / (2 * fs) + BIT_SAFETY_MARGIN
}

/// Number of sequencer bits to hold for a chunk of `samples` samples at
/// sample rate `fs`.
pub fn bits_for_samples(samples: usize, fs: u32) -> (r: usize)
    requires
        fs >= 1,
        samples * 2375 <= u64::MAX,
        bits_for_samples_spec(samples as int, fs as int) <= usize::MAX,
    ensures
        r == bits_for_samples_spec(samples as int, fs as int),
{
    let need64: u64 = (samples as u64) * 2375 / (2 * (fs as u64));
    assert(need64 == (samples as int) * 2375 / (2 * fs));
    need64 as usize + BIT_SAFETY_MARGIN
}

/// Capacity of the engine's FIFO: two seconds of audio at the device rate.
pub fn ring_capacity(sample_rate: u32) -> (r: usize)
    requires
        2 * sample_rate <= usize::MAX,
    ensures
        r == 2 * sample_rate,
{
    2 * (sample_rate as usize)
}

/// An output configuration's supported sample-rate range.
pub struct RateRange {
    /// Lowest supported rate.
    pub min_rate: u32,
    /// Highest supported rate.
    pub max_rate: u32,
}

/// The rate a configuration would run at for a request: the request itself
/// when the range contains it, otherwise the nearer bound.
pub open spec fn clamped_rate(rr: RateRange, fs: u32) -> u32 {
    if fs < rr.min_rate {
        rr.min_rate
    } else if fs > rr.max_rate {
        rr.max_rate
    } else {
        fs
    }
}

/// Distance between the requested rate and what a configuration offers.
pub open spec fn rate_distance(rr: RateRange, fs: u32) -> int {
    vstd::math::abs(clamped_rate(rr, fs) - fs) as int
}

/// Choose the output configuration whose supported range lies closest to
/// the requested sample rate: an exact match when one exists, otherwise
/// the nearest range bound; among equally close ranges the first wins.
/// Yields nothing when no configuration was offered.
pub fn choose_output_config(ranges: &Vec<RateRange>, requested: u32) -> (r: Option<(usize, u32)>)
    ensures
        ranges@.len() == 0 <==> r is None,
        r matches Some((i, rate)) ==> {
            &&& 0 <= i < ranges@.len()
            &&& rate == clamped_rate(ranges@[i as int], requested)
            &&& forall|j: int|
                0 <= j < ranges@.len() ==> rate_distance(ranges@[i as int], requested)
                    <= #[trigger] rate_distance(ranges@[j], requested)
            &&& forall|j: int|
                0 <= j < i ==> rate_distance(ranges@[i as int], requested)
                    < #[trigger] rate_distance(ranges@[j], requested)
        },
{
    if ranges.len() == 0 {
        return None;
    }
    let mut best_i: usize = 0;
    let mut best_rate: u32 = clamp_rate_exec(&ranges[0], requested);
    let mut best_diff: u32 = rate_diff_exec(&ranges[0], requested);
    let mut j: usize = 1;
    while j < ranges.len()
        invariant
            1 <= j <= ranges@.len(),
            best_i < j,
            best_rate == clamped_rate(ranges@[best_i as int], requested),
            best_diff == rate_distance(ranges@[best_i as int], requested),
            forall|m: int|
                0 <= m < j ==> best_diff <= #[trigger] rate_distance(ranges@[m], requested),
            forall|m: int|
                0 <= m < best_i ==> best_diff < #[trigger] rate_distance(ranges@[m], requested),
        decreases ranges@.len() - j,
    {
        let rate = clamp_rate_exec(&ranges[j], requested);
        let diff = rate_diff_exec(&ranges[j], requested);
        if diff < best_diff {
            best_i = j;
            best_rate = rate;
            best_diff = diff;
        }
        j = j + 1;
    }
    Some((best_i, best_rate))
}

/// Clamp the requested rate into a configuration's supported range.
fn clamp_rate_exec(rr: &RateRange, fs: u32) -> (r: u32)
    ensures
        r == clamped_rate(*rr, fs),
{
    if fs < rr.min_rate {
        rr.min_rate
    } else if fs > rr.max_rate {
        rr.max_rate
    } else {
        fs
    }
}

/// Distance between the requested rate and a configuration's clamped rate.
fn rate_diff_exec(rr: &RateRange, fs: u32) -> (r: u32)
    ensures
        r == rate_distance(*rr, fs),
{
    let c = clamp_rate_exec(rr, fs);
    if c >= fs {
        c - fs
    } else {
        fs - c
    }
}

/// The queue that feeds sequencer bits to the producer: a buffer of bits
/// already generated but not yet consumed, topped up from the sequencer
/// whenever a request would drain it.
pub struct BitQueue {
    /// The sequencer that refills the buffer.
    pub gen: RdsGen,
    /// Bits generated but not yet handed out.
    pub buf: Vec<u8>,
}

/// Bits generated per top-up: two seconds' worth at 1187.5 bit/s.
pub const TOPUP_BITS: usize = 2375;

impl BitQueue {
    /// An empty queue in front of a sequencer.
    pub fn new(gen: RdsGen) -> (q: BitQueue)
        ensures
            q.gen == gen,
            q.buf@ == Seq::<u8>::empty(),
    {
        BitQueue { gen, buf: Vec::new() }
    }

    /// Take `n` bits from the queue, topping it up with one block of
    /// freshly generated bits when it holds fewer than `n`.  For any
    /// request of at most one top-up block the full count is delivered.
    pub fn take(&mut self, n: usize) -> (r: Vec<u8>)
        requires
            old(self).gen.wf(),
        ensures
            final(self).gen.wf(),
            n <= TOPUP_BITS ==> r@.len() == n,
            exists|k: nat|
                #![trigger gen_steps(old(self).gen@, k)]
                {
                    let q = if old(self).buf@.len() < n {
                        old(self).buf@ + emissions(old(self).gen@, k).take(TOPUP_BITS as int)
                    } else {
                        old(self).buf@
                    };
                    let m = vstd::math::min(n as int, q.len() as int);
                    &&& (old(self).buf@.len() < n ==> emissions(old(self).gen@, k).len()
                        >= TOPUP_BITS)
                    &&& (old(self).buf@.len() >= n ==> k == 0)
                    &&& final(self).gen@ == gen_steps(old(self).gen@, k)
                    &&& r@ == q.take(m)
                    &&& final(self).buf@ == q.skip(m)
                },
    {
        let ghost g0 = old(self).gen@;
        let ghost b0 = old(self).buf@;
        let ghost mut kw: nat = 0;
        if self.buf.len() < n {
            let mut extra = self.gen.generate(TOPUP_BITS);
            proof {
                kw = choose|k: nat|
                    {
                        &&& emissions(g0, k).len() >= TOPUP_BITS
                        &&& (k == 0 || emissions(g0, (k - 1) as nat).len() < TOPUP_BITS)
                        &&& extra@ == emissions(g0, k).take(TOPUP_BITS as int)
                        &&& self.gen@ == gen_steps(g0, k)
                    };
            }
            self.buf.append(&mut extra);
        }
        let ghost q = if b0.len() < n {
            b0 + emissions(g0, kw).take(TOPUP_BITS as int)
        } else {
            b0
        };
        proof {
            assert(self.buf@ == q);
        }
        let m = if n < self.buf.len() {
            n
        } else {
            self.buf.len()
        };
        let mut rest = self.buf.split_off(m);
        core::mem::swap(&mut self.buf, &mut rest);
        proof {
            assert(rest@ =~= q.take(vstd::math::min(n as int, q.len() as int)));
            assert(self.buf@ =~= q.skip(vstd::math::min(n as int, q.len() as int)));
            assert({
                let q2 = if old(self).buf@.len() < n {
                    old(self).buf@ + emissions(old(self).gen@, kw).take(TOPUP_BITS as int)
                } else {
                    old(self).buf@
                };
                let m2 = vstd::math::min(n as int, q2.len() as int);
                &&& (old(self).buf@.len() < n ==> emissions(old(self).gen@, kw).len()
                    >= TOPUP_BITS)
                &&& (old(self).buf@.len() >= n ==> kw == 0)
                &&& self.gen@ == gen_steps(old(self).gen@, kw)
                &&& rest@ == q2.take(m2)
                &&& self.buf@ == q2.skip(m2)
            });
        }
        rest
    }
}

/// What enumeration learned about one output device: its name when the
/// query succeeded, and the channel counts of its supported output
/// configurations when that query succeeded.
pub struct DeviceProbe {
    /// The device's name, if it could be read.
    pub name: Option<String>,
    /// Channel count of each supported output configuration, if they could
    /// be listed.
    pub channels: Option<Vec<u16>>,
}

/// One row of the device list handed to callers.
pub struct OutputDeviceInfo {
    /// The device's position in the enumeration order.
    pub index: usize,
    /// The device's name, or "Unknown" when it could not be read.
    pub name: String,
    /// The largest channel count among the device's configurations.
    pub channels: u16,
}

/// The largest channel count in a list of configurations.
pub open spec fn max_channels(cs: Seq<u16>) -> u16
    decreases cs.len(),
{
    if cs.len() == 0 {
        0u16
    } else {
        let m = max_channels(cs.drop_last());
        if cs.last() > m {
            cs.last()
        } else {
            m
        }
    }
}

/// Whether probe `p` contributes a row: its configurations could be listed
/// and at least one names a channel.
pub open spec fn probe_listed(p: DeviceProbe) -> bool {
    p.channels is Some && max_channels(p.channels->0@) > 0
}

/// The name a probe is listed under.
pub open spec fn probe_name(p: DeviceProbe) -> Seq<char> {
    match p.name {
        Some(s) => s@,
        None => "Unknown"@,
    }
}

/// The rows contributed by the first `n` probes, in enumeration order.
pub open spec fn listed_rows(probes: Seq<DeviceProbe>, n: int) -> Seq<(int, Seq<char>, u16)>
    decreases n,
{
    if n <= 0 {
        Seq::empty()
    } else {
        let head = listed_rows(probes, n - 1);
        let p = probes[n - 1];
        if probe_listed(p) {
            head.push((n - 1, probe_name(p), max_channels(p.channels->0@)))
        } else {
            head
        }
    }
}

/// Summarise an enumerated device list: each device whose configurations
/// could be read and offer at least one channel is listed under its
/// enumeration index and name (or "Unknown" when the name could not be
/// read) with its largest channel count; the others are dropped.
pub fn list_output_devices(probes: &Vec<DeviceProbe>) -> (r: Vec<OutputDeviceInfo>)
    ensures
        r@.len() == listed_rows(probes@, probes@.len() as int).len(),
        forall|i: int|
            0 <= i < r@.len() ==> {
                let row = listed_rows(probes@, probes@.len() as int)[i];
                &&& #[trigger] r@[i].index == row.0
                &&& r@[i].name@ == row.1
                &&& r@[i].channels == row.2
            },
{
    let mut out: Vec<OutputDeviceInfo> = Vec::new();
    let mut i: usize = 0;
    while i < probes.len()
        invariant
            i <= probes@.len(),
            out@.len() == listed_rows(probes@, i as int).len(),
            forall|m: int|
                0 <= m < out@.len() ==> {
                    let row = listed_rows(probes@, i as int)[m];
                    &&& #[trigger] out@[m].index == row.0
                    &&& out@[m].name@ == row.1
                    &&& out@[m].channels == row.2
                },
        decreases probes@.len() - i,
    {
        let p = &probes[i];
        let listed: bool;
        let mut chans: u16 = 0;
        match &p.channels {
            Some(cs) => {
                let mut k: usize = 0;
                while k < cs.len()
                    invariant
                        k <= cs@.len(),
                        chans == max_channels(cs@.take(k as int)),
                    decreases cs@.len() - k,
                {
                    let c = cs[k];
                    if c > chans {
                        chans = c;
                    }
                    proof {
                        assert(cs@.take(k + 1).drop_last() =~= cs@.take(k as int));
                    }
                    k = k + 1;
                }
                proof {
                    assert(cs@.take(cs@.len() as int) =~= cs@);
                }
                listed = chans > 0;
            },
            None => {
                listed = false;
            },
        }
        if listed {
            let name: String = match &p.name {
                Some(s) => s.clone(),
                None => "Unknown".to_string(),
            };
            out.push(OutputDeviceInfo { index: i, name, channels: chans });
        }
        proof {
            assert(listed_rows(probes@, i + 1).len() == out@.len());
        }
        i = i + 1;
    }
    out
}

} // verus!
