//! The RDS group sequencer: a small state machine that interleaves type-0A
//! program-service groups, type-2A radiotext groups and raw logo-bitstream
//! chunks, 104 bits per emission (logo chunks may be shorter at a wrap).
//!
//! The cycle follows the broadcast cadence of the encoder: whenever the
//! program-service counter is a multiple of five and logo data is present,
//! the next chunk of the logo stream is emitted (with a wrap-around cursor);
//! otherwise a 0A group is emitted unless the counter's residue modulo three
//! is two, in which case a 2A group is emitted and only the radiotext
//! counter advances.

use vstd::prelude::*;
use crate::rds::{RdsConfig, group_0a, group_2a, group_0a_spec, group_2a_spec};

verus! {

/// Mathematical view of the sequencer state.
pub struct GenView {
    /// Program identification code.
    pub pi: u16,
    /// Program service name bytes, unclamped.
    pub ps: Seq<u8>,
    /// Radiotext bytes, unclamped.
    pub rt: Seq<u8>,
    /// Logo bitstream, one byte per bit, if one was installed.
    pub logo: Option<Seq<u8>>,
    /// Program-service cycle counter, kept below 4.
    pub ps_idx: int,
    /// Radiotext cycle counter, kept below 16.
    pub rt_idx: int,
    /// Wrap-around cursor into the logo bitstream.
    pub logo_pos: int,
}

/// Whether a non-empty logo bitstream is installed.
pub open spec fn has_logo(v: GenView) -> bool {
    v.logo is Some && v.logo->0.len() > 0
}

/// Whether the next emission is a logo chunk: logo data is present and the
/// program-service counter sits on a multiple of five.
pub open spec fn emits_logo(v: GenView) -> bool {
    has_logo(v) && v.ps_idx % 5 == 0
}

/// The chunk of up to `max` logo bits taken by one logo emission.  When the
/// cursor has reached the end of the stream, it wraps to the start first.
pub open spec fn logo_chunk(v: GenView, max: int) -> Seq<u8> {
    let data = v.logo->0;
    let n0 = vstd::math::min(max, data.len() - v.logo_pos);
    if n0 == 0 {
        data.take(vstd::math::min(max, data.len() as int))
    } else {
        data.subrange(v.logo_pos, v.logo_pos + n0)
    }
}

/// The logo cursor after one logo emission with budget `max`.
pub open spec fn logo_pos_after(v: GenView, max: int) -> int {
    let data = v.logo->0;
    let n0 = vstd::math::min(max, data.len() - v.logo_pos);
    if n0 == 0 {
        vstd::math::min(max, data.len() as int)
    } else {
        v.logo_pos + n0
    }
}

/// The bits produced by the next emission.
pub open spec fn gen_emission(v: GenView) -> Seq<u8> {
    if emits_logo(v) {
        logo_chunk(v, 104)
    } else if v.ps_idx % 3 != 2 {
        group_0a_spec(v.pi, v.ps, v.ps_idx)
    } else {
        group_2a_spec(v.pi, v.rt, v.rt_idx)
    }
}

/// The sequencer state after the next emission.  A logo emission advances
/// only the cursor; a 0A emission advances only the program-service
/// counter; a 2A emission advances only the radiotext counter.
pub open spec fn gen_step(v: GenView) -> GenView {
    if emits_logo(v) {
        GenView { logo_pos: logo_pos_after(v, 104), ..v }
    } else if v.ps_idx % 3 != 2 {
        GenView { ps_idx: (v.ps_idx + 1) % 4, ..v }
    } else {
        GenView { rt_idx: (v.rt_idx + 1) % 16, ..v }
    }
}

/// The state after `k` emissions.
pub open spec fn gen_steps(v: GenView, k: nat) -> GenView
    decreases k,
{
    if k == 0 {
        v
    } else {
        gen_steps(gen_step(v), (k - 1) as nat)
    }
}

/// The concatenated bits of the next `k` emissions.
pub open spec fn emissions(v: GenView, k: nat) -> Seq<u8>
    decreases k,
{
    if k == 0 {
        Seq::empty()
    } else {
        gen_emission(v) + emissions(gen_step(v), (k - 1) as nat)
    }
}

/// The state after `k + 1` emissions is one step beyond the state after `k`.
pub proof fn lemma_gen_steps_snoc(v: GenView, k: nat)
    ensures
        gen_steps(v, k + 1) == gen_step(gen_steps(v, k)),
    decreases k,
{
    if k == 0 {
        assert(gen_steps(v, 1) == gen_steps(gen_step(v), 0));
        assert(gen_steps(v, 0) == v);
    } else {
        lemma_gen_steps_snoc(gen_step(v), (k - 1) as nat);
        assert(gen_steps(v, k + 1) == gen_steps(gen_step(v), k));
        assert(gen_steps(v, k) == gen_steps(gen_step(v), (k - 1) as nat));
        assert((k - 1) as nat + 1 == k);
    }
}

/// The bits of `k + 1` emissions are the bits of `k` emissions followed by
/// the emission of the `k`-th state.
pub proof fn lemma_emissions_snoc(v: GenView, k: nat)
    ensures
        emissions(v, k + 1) =~= emissions(v, k) + gen_emission(gen_steps(v, k)),
    decreases k,
{
    if k == 0 {
        assert(emissions(v, 1) == gen_emission(v) + emissions(gen_step(v), 0));
        assert(emissions(v, 0) == Seq::<u8>::empty());
    } else {
        lemma_emissions_snoc(gen_step(v), (k - 1) as nat);
        assert(emissions(v, k + 1) == gen_emission(v) + emissions(gen_step(v), k));
        assert(emissions(v, k) == gen_emission(v) + emissions(gen_step(v), (k - 1) as nat));
        assert((k - 1) as nat + 1 == k);
        assert(gen_steps(v, k) == gen_steps(gen_step(v), (k - 1) as nat));
    }
}

/// The RDS group sequencer.
pub struct RdsGen {
    /// Station identity.
    pub cfg: RdsConfig,
    /// Program-service cycle counter.
    pub ps_idx: usize,
    /// Radiotext cycle counter.
    pub rt_idx: usize,
    /// Installed logo bitstream, one byte per bit.
    pub logo_bits: Option<Vec<u8>>,
    /// Wrap-around cursor into the logo bitstream.
    pub logo_pos: usize,
}

impl View for RdsGen {
    type V = GenView;

    open spec fn view(&self) -> GenView {
        GenView {
            pi: self.cfg.pi,
            ps: self.cfg.ps@,
            rt: self.cfg.rt@,
            logo: match self.logo_bits {
                Some(b) => Some(b@),
                None => None,
            },
            ps_idx: self.ps_idx as int,
            rt_idx: self.rt_idx as int,
            logo_pos: self.logo_pos as int,
        }
    }
}

impl RdsGen {
    /// The counters stay inside their cycles and the logo cursor never
    /// passes the end of the installed bitstream.
    pub open spec fn wf(&self) -> bool {
        &&& self.ps_idx < 4
        &&& self.rt_idx < 16
        &&& match self@.logo {
            Some(d) => self@.logo_pos <= d.len(),
            None => self@.logo_pos == 0,
        }
    }

    /// Create a sequencer at the start of all three cycles, without a logo.
    pub fn new(cfg: RdsConfig) -> (g: RdsGen)
        ensures
            g.wf(),
            g.cfg == cfg,
            g.ps_idx == 0,
            g.rt_idx == 0,
            g.logo_bits is None,
            g.logo_pos == 0,
    {
        RdsGen { cfg, ps_idx: 0, rt_idx: 0, logo_bits: None, logo_pos: 0 }
    }

    /// Install (or remove) a logo bitstream and rewind its cursor.
    pub fn set_logo_bits(&mut self, bits: Option<Vec<u8>>)
        ensures
            final(self).wf() == (old(self).ps_idx < 4 && old(self).rt_idx < 16),
            final(self).cfg == old(self).cfg,
            final(self).ps_idx == old(self).ps_idx,
            final(self).rt_idx == old(self).rt_idx,
            final(self).logo_bits == bits,
            final(self).logo_pos == 0,
    {
        self.logo_bits = bits;
        self.logo_pos = 0;
    }

    /// Take the next chunk of up to `max_bits` logo bits, wrapping the
    /// cursor to the start of the stream when it has reached the end.
    /// Yields nothing when no non-empty logo bitstream is installed.
    pub fn next_logo_chunk(&mut self, max_bits: usize) -> (r: Option<Vec<u8>>)
        requires
            old(self).wf(),
        ensures
            final(self).wf(),
            final(self).cfg == old(self).cfg,
            final(self).ps_idx == old(self).ps_idx,
            final(self).rt_idx == old(self).rt_idx,
            final(self).logo_bits == old(self).logo_bits,
            if has_logo(old(self)@) {
                &&& r is Some
                &&& r->0@ == logo_chunk(old(self)@, max_bits as int)
                &&& final(self)@.logo_pos == logo_pos_after(old(self)@, max_bits as int)
            } else {
                r is None && final(self).logo_pos == old(self).logo_pos
            },
    {
        let (start, n, new_pos): (usize, usize, usize) = match &self.logo_bits {
            None => {
                return None;
            },
            Some(data) => {
                if data.len() == 0 {
                    return None;
                }
                let rem = data.len() - self.logo_pos;
                let n0 = if max_bits < rem { max_bits } else { rem };
                if n0 == 0 {
                    let n1 = if max_bits < data.len() { max_bits } else { data.len() };
                    (0, n1, n1)
                } else {
                    (self.logo_pos, n0, self.logo_pos + n0)
                }
            },
        };
        let end = new_pos;
        let mut chunk: Vec<u8> = Vec::with_capacity(n);
        let mut i: usize = start;
        while i < end
            invariant
                start <= i <= end,
                end == start + n,
                chunk@.len() == i - start,
                self == old(self),
                self.logo_bits is Some,
                end <= self.logo_bits->0@.len(),
                forall|j: int| 0 <= j < i - start ==> chunk@[j] == self.logo_bits->0@[start + j],
            decreases end - i,
        {
            let b = match &self.logo_bits {
                Some(data) => data[i],
                None => 0,
            };
            chunk.push(b);
            i = i + 1;
        }
        self.logo_pos = new_pos;
        proof {
            assert(chunk@ =~= logo_chunk(old(self)@, max_bits as int));
        }
        Some(chunk)
    }

    /// Emit the next 104-bit group, or the next logo chunk when the cycle
    /// calls for one.  Exactly one counter (or the logo cursor) advances.
    pub fn next_bits(&mut self) -> (r: Vec<u8>)
        requires
            old(self).wf(),
        ensures
            final(self).wf(),
            r@ == gen_emission(old(self)@),
            final(self)@ == gen_step(old(self)@),
            r@.len() >= 1,
    {
        if self.ps_idx % 5 == 0 {
            let ch = self.next_logo_chunk(104);
            match ch {
                Some(c) => {
                    proof {
                        assert(self@ =~= gen_step(old(self)@));
                    }
                    return c;
                },
                None => {},
            }
        }
        if self.ps_idx % 3 != 2 {
            let bits = group_0a(&self.cfg, self.ps_idx);
            self.ps_idx = (self.ps_idx + 1) % 4;
            proof {
                assert(self@ =~= gen_step(old(self)@));
            }
            bits
        } else {
            let bits = group_2a(&self.cfg, self.rt_idx);
            self.rt_idx = (self.rt_idx + 1) % 16;
            proof {
                assert(self@ =~= gen_step(old(self)@));
            }
            bits
        }
    }

    /// Concatenate successive emissions until exactly `total_bits` bits are
    /// produced, truncating the final emission; its unused tail is
    /// discarded.  The result is the prefix of the emission stream, taken
    /// over the least number of emissions that covers the request.
    pub fn generate(&mut self, total_bits: usize) -> (r: Vec<u8>)
        requires
            old(self).wf(),
        ensures
            final(self).wf(),
            r@.len() == total_bits,
            exists|k: nat|
                {
                    &&& emissions(old(self)@, k).len() >= total_bits
                    &&& (k == 0 || emissions(old(self)@, (k - 1) as nat).len() < total_bits)
                    &&& r@ == emissions(old(self)@, k).take(total_bits as int)
                    &&& final(self)@ == gen_steps(old(self)@, k)
                },
    {
        let ghost v0 = old(self)@;
        let mut out: Vec<u8> = Vec::with_capacity(total_bits);
        let ghost mut steps: nat = 0;
        while out.len() < total_bits
            invariant
                self.wf(),
                out@.len() <= total_bits,
                self@ == gen_steps(v0, steps),
                if out@.len() < total_bits {
                    out@ == emissions(v0, steps)
                } else {
                    emissions(v0, steps).len() >= total_bits
                        && out@ == emissions(v0, steps).take(total_bits as int)
                },
                steps == 0 || emissions(v0, (steps - 1) as nat).len() < total_bits,
            decreases total_bits - out@.len(),
        {
            let ghost out_before = out@;
            let g = self.next_bits();
            proof {
                lemma_emissions_snoc(v0, steps);
                lemma_gen_steps_snoc(v0, steps);
            }
            let rem = total_bits - out.len();
            let n = if g.len() < rem { g.len() } else { rem };
            let mut j: usize = 0;
            while j < n
                invariant
                    j <= n,
                    n <= g.len(),
                    out@.len() == out_before.len() + j,
                    out@ == out_before + g@.take(j as int),
                decreases n - j,
            {
                let b = g[j];
                out.push(b);
                proof {
                    assert(out@ =~= out_before + g@.take(j + 1));
                }
                j = j + 1;
            }
            proof {
                steps = steps + 1;
                if out@.len() < total_bits {
                    assert(out@ =~= emissions(v0, steps));
                } else {
                    assert(out@ =~= emissions(v0, steps).take(total_bits as int));
                }
            }
        }
        proof {
            assert(emissions(v0, steps).len() >= total_bits);
        }
        out
    }
}

/// Cadence of the interleaving cycle, absent a logo: from the start of the
/// program-service cycle, a window of three consecutive emissions holds
/// exactly two type-0A groups followed by one type-2A group.
pub proof fn lemma_cadence_window(v: GenView)
    requires
        !has_logo(v),
        v.ps_idx == 0,
    ensures
        gen_emission(v) == group_0a_spec(v.pi, v.ps, 0),
        gen_emission(gen_step(v)) == group_0a_spec(v.pi, v.ps, 1),
        gen_emission(gen_steps(v, 2)) == group_2a_spec(v.pi, v.rt, v.rt_idx),
{
    assert(gen_steps(v, 2) == gen_step(gen_step(v))) by {
        reveal_with_fuel(gen_steps, 3);
    }
}

/// With a logo installed, every emission made while the program-service
/// counter sits on a multiple of five is a logo chunk.
pub proof fn lemma_logo_every_fifth(v: GenView)
    requires
        has_logo(v),
        v.ps_idx % 5 == 0,
    ensures
        gen_emission(v) == logo_chunk(v, 104),
{
}

} // verus!
