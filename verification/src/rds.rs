//! RDS group encoding: CRC-10 checkwords, block packing, and the 0A/2A
//! group builders.
//!
//! Every RDS block carries 16 data bits followed by a 10-bit checkword; the
//! checkword is the CRC of the data word XORed with a fixed offset word that
//! identifies the block position within a group.

use vstd::prelude::*;

verus! {

/// Offset word for block A.
pub const OFFSET_A: u16 = 0x0FC;

/// Offset word for block B.
pub const OFFSET_B: u16 = 0x198;

/// Offset word for block C.
pub const OFFSET_C: u16 = 0x168;

/// Offset word for block D.
pub const OFFSET_D: u16 = 0x1B4;

/// Generator polynomial of the RDS CRC, over an 11-bit shift register.
pub const CRC_POLY: u32 = 0x5B9;

/// One step of the CRC shift register: the register's top bit is examined,
/// the register is shifted left by one with `bit` shifted in, and the
/// polynomial is XORed in when the examined bit was set.
pub open spec fn crc10_step(reg: u32, bit: u32) -> u32 {
    if reg & 0x400 != 0 {
        (((reg << 1) & 0x7FF) | bit) ^ CRC_POLY
    } else {
        ((reg << 1) & 0x7FF) | bit
    }
}

/// The message bit consumed by iteration `i` (0-based, MSB first) when the
/// 16-bit word is left-shifted by 10 to form a 26-bit message.
pub open spec fn crc10_data_bit(word: u16, i: int) -> u32 {
    (((word as u32) << 10) >> ((25 - i) as u32)) & 1
}

/// The shift register contents after `n` iterations, starting from zero.
pub open spec fn crc10_reg(word: u16, n: nat) -> u32
    decreases n,
{
    if n == 0 {
        0
    } else {
        crc10_step(crc10_reg(word, (n - 1) as nat), crc10_data_bit(word, n - 1))
    }
}

/// The 10-bit CRC of a 16-bit word: the low ten bits of the register after
/// all 26 message bits have been processed.
pub open spec fn crc10(word: u16) -> u16 {
    (crc10_reg(word, 26) & 0x3FF) as u16
}

/// Compute the 10-bit RDS checkword CRC of a 16-bit word.
pub fn rds_crc10(word: u16) -> (r: u16)
    ensures
        r == crc10(word),
{
    let data: u32 = (word as u32) << 10;
    let mut reg: u32 = 0;
    let mut i: usize = 0;
    while i < 26
        invariant
            i <= 26,
            data == (word as u32) << 10,
            reg == crc10_reg(word, i as nat),
        decreases 26 - i,
    {
        let bit: u32 = (data >> ((25 - i) as u32)) & 1;
        let top: u32 = reg & 0x400;
        reg = ((reg << 1) & 0x7FF) | bit;
        if top != 0 {
            reg = reg ^ CRC_POLY;
        }
        i = i + 1;
    }
    (reg & 0x3FF) as u16
}

/// Bit `p` (counting from the least significant position) of a 16-bit word,
/// as a 0/1 byte.
pub open spec fn bit16(w: u16, p: int) -> u8 {
    ((w >> (p as u16)) & 1) as u8
}

/// The 26 bits of one packed block: the 16 data bits MSB first, then the 10
/// checkword bits MSB first, where the checkword is the CRC of the word
/// XORed with the block's offset word.
pub open spec fn pack_block_spec(word: u16, offset: u16) -> Seq<u8> {
    Seq::new(26, |i: int|
        if i < 16 {
            bit16(word, 15 - i)
        } else {
            bit16(crc10(word) ^ offset, 25 - i)
        })
}

/// Pack a 16-bit word and its offset-adjusted checkword into 26 bits,
/// most significant bit first.
pub fn pack_block(word: u16, offset: u16) -> (r: Vec<u8>)
    ensures
        r@ == pack_block_spec(word, offset),
{
    let cw: u16 = rds_crc10(word) ^ offset;
    let mut bits: Vec<u8> = Vec::with_capacity(26);
    let mut i: usize = 0;
    while i < 16
        invariant
            i <= 16,
            cw == crc10(word) ^ offset,
            bits@.len() == i,
            forall|j: int| 0 <= j < i ==> bits@[j] == bit16(word, 15 - j),
        decreases 16 - i,
    {
        bits.push(((word >> ((15 - i) as u16)) & 1) as u8);
        i = i + 1;
    }
    let mut k: usize = 0;
    while k < 10
        invariant
            k <= 10,
            cw == crc10(word) ^ offset,
            bits@.len() == 16 + k,
            forall|j: int| 0 <= j < 16 ==> bits@[j] == bit16(word, 15 - j),
            forall|j: int| 16 <= j < 16 + k ==> bits@[j] == bit16(cw, 25 - j),
        decreases 10 - k,
    {
        bits.push(((cw >> ((9 - k) as u16)) & 1) as u8);
        k = k + 1;
    }
    proof {
        assert(bits@ =~= pack_block_spec(word, offset));
    }
    bits
}

/// The station identity carried by the RDS groups: the 16-bit program
/// identification code, the program service name and the radiotext, both as
/// byte strings that are clamped to their protocol length before use.
pub struct RdsConfig {
    /// Program identification code.
    pub pi: u16,
    /// Program service name; clamped to 8 bytes, space padded.
    pub ps: Vec<u8>,
    /// Radiotext; clamped to 64 bytes, space padded.
    pub rt: Vec<u8>,
}

/// A byte string truncated or space-padded to exactly `n` bytes.
pub open spec fn padded(s: Seq<u8>, n: int) -> Seq<u8> {
    Seq::new(n as nat, |i: int| if i < s.len() { s[i] } else { 32u8 })
}

/// Clamp a byte string to exactly `n` bytes, padding with spaces.
fn pad_to(s: &Vec<u8>, n: usize) -> (r: Vec<u8>)
    ensures
        r@ == padded(s@, n as int),
{
    let mut r: Vec<u8> = Vec::with_capacity(n);
    let mut i: usize = 0;
    while i < n
        invariant
            i <= n,
            r@.len() == i,
            forall|j: int| 0 <= j < i ==> r@[j] == padded(s@, n as int)[j],
        decreases n - i,
    {
        if i < s.len() {
            let b = s[i];
            r.push(b);
        } else {
            r.push(32u8);
        }
        i = i + 1;
    }
    proof {
        assert(r@ =~= padded(s@, n as int));
    }
    r
}

/// The 104 bits of a type-0A group: block A carries the PI code, block B the
/// group type and the 2-bit segment address, block C is zero, and block D
/// holds the two program service characters of the addressed segment.
pub open spec fn group_0a_spec(pi: u16, ps: Seq<u8>, seg: int) -> Seq<u8> {
    let s = seg % 4;
    let p = padded(ps, 8);
    let c1 = p[2 * s] as u16;
    let c2 = p[2 * s + 1] as u16;
    let block_b = s as u16;
    let block_d = ((c1 & 0xFF) << 8) | (c2 & 0xFF);
    pack_block_spec(pi, OFFSET_A) + pack_block_spec(block_b, OFFSET_B)
        + pack_block_spec(0u16, OFFSET_C) + pack_block_spec(block_d, OFFSET_D)
}

/// Build a type-0A (program service name) group for the given segment.
pub fn group_0a(cfg: &RdsConfig, seg: usize) -> (r: Vec<u8>)
    ensures
        r@ == group_0a_spec(cfg.pi, cfg.ps@, seg as int),
{
    let s: usize = seg % 4;
    let p = pad_to(&cfg.ps, 8);
    let c1 = p[2 * s] as u16;
    let c2 = p[2 * s + 1] as u16;
    let block_b: u16 = s as u16;
    let block_d: u16 = ((c1 & 0xFF) << 8) | (c2 & 0xFF);
    let mut out = pack_block(cfg.pi, OFFSET_A);
    let mut b = pack_block(block_b, OFFSET_B);
    out.append(&mut b);
    let mut c = pack_block(0u16, OFFSET_C);
    out.append(&mut c);
    let mut d = pack_block(block_d, OFFSET_D);
    out.append(&mut d);
    out
}

/// The 104 bits of a type-2A group: block A carries the PI code, block B the
/// group type and the 4-bit segment address, and blocks C and D hold the
/// four radiotext characters of the addressed segment.
pub open spec fn group_2a_spec(pi: u16, rt: Seq<u8>, seg: int) -> Seq<u8> {
    let s = seg % 16;
    let t = padded(rt, 64);
    let c1 = t[4 * s] as u16;
    let c2 = t[4 * s + 1] as u16;
    let c3 = t[4 * s + 2] as u16;
    let c4 = t[4 * s + 3] as u16;
    let block_b = 4u16 | (s as u16);
    let block_c = ((c1 & 0xFF) << 8) | (c2 & 0xFF);
    let block_d = ((c3 & 0xFF) << 8) | (c4 & 0xFF);
    pack_block_spec(pi, OFFSET_A) + pack_block_spec(block_b, OFFSET_B)
        + pack_block_spec(block_c, OFFSET_C) + pack_block_spec(block_d, OFFSET_D)
}

/// Build a type-2A (radiotext) group for the given segment.
pub fn group_2a(cfg: &RdsConfig, seg: usize) -> (r: Vec<u8>)
    ensures
        r@ == group_2a_spec(cfg.pi, cfg.rt@, seg as int),
{
    let s: usize = seg % 16;
    let t = pad_to(&cfg.rt, 64);
    let c1 = t[4 * s] as u16;
    let c2 = t[4 * s + 1] as u16;
    let c3 = t[4 * s + 2] as u16;
    let c4 = t[4 * s + 3] as u16;
    let block_b: u16 = 4u16 | (s as u16);
    let block_c: u16 = ((c1 & 0xFF) << 8) | (c2 & 0xFF);
    let block_d: u16 = ((c3 & 0xFF) << 8) | (c4 & 0xFF);
    let mut out = pack_block(cfg.pi, OFFSET_A);
    let mut b = pack_block(block_b, OFFSET_B);
    out.append(&mut b);
    let mut c = pack_block(block_c, OFFSET_C);
    out.append(&mut c);
    let mut d = pack_block(block_d, OFFSET_D);
    out.append(&mut d);
    out
}

/// The byte encoded by eight 0/1 bits, most significant first.
pub open spec fn byte_of_bits(s: Seq<u8>) -> u8
    recommends
        s.len() == 8,
{
    (s[0] * 128 + s[1] * 64 + s[2] * 32 + s[3] * 16 + s[4] * 8 + s[5] * 4 + s[6] * 2 + s[7]) as u8
}

/// The 16 data bits of a packed block carry the word: the first eight
/// encode its high byte and the next eight its low byte.
pub proof fn lemma_pack_block_bytes(word: u16, offset: u16)
    ensures
        byte_of_bits(pack_block_spec(word, offset).subrange(0, 8)) == (word >> 8) as u8,
        byte_of_bits(pack_block_spec(word, offset).subrange(8, 16)) == (word & 0xFF) as u8,
{
    let p = pack_block_spec(word, offset);
    let hi = p.subrange(0, 8);
    let lo = p.subrange(8, 16);
    assert forall|i: int| 0 <= i < 8 implies hi[i] == bit16(word, 15 - i) && lo[i] == bit16(
        word,
        7 - i,
    ) by {
        assert(p[i] == bit16(word, 15 - i));
        assert(p[8 + i] == bit16(word, 15 - (8 + i)));
    }
    assert((bit16(word, 15) * 128 + bit16(word, 14) * 64 + bit16(word, 13) * 32 + bit16(word, 12)
        * 16 + bit16(word, 11) * 8 + bit16(word, 10) * 4 + bit16(word, 9) * 2 + bit16(word, 8))
        as u8 == (word >> 8) as u8) by (bit_vector);
    assert((bit16(word, 7) * 128 + bit16(word, 6) * 64 + bit16(word, 5) * 32 + bit16(word, 4) * 16
        + bit16(word, 3) * 8 + bit16(word, 2) * 4 + bit16(word, 1) * 2 + bit16(word, 0)) as u8 == (
    word & 0xFF) as u8) by (bit_vector);
}

/// Packing two bytes into a block word and reading the word's bytes back
/// returns the original bytes.
proof fn lemma_two_byte_word(c1: u16, c2: u16)
    requires
        c1 < 256,
        c2 < 256,
    ensures
        ((((c1 & 0xFF) << 8) | (c2 & 0xFF)) >> 8) as u8 == c1 as u8,
        ((((c1 & 0xFF) << 8) | (c2 & 0xFF)) & 0xFF) as u8 == c2 as u8,
{
    assert(((((c1 & 0xFF) << 8) | (c2 & 0xFF)) >> 8) as u8 == c1 as u8 && ((((c1 & 0xFF) << 8) | (
    c2 & 0xFF)) & 0xFF) as u8 == c2 as u8) by (bit_vector)
        requires
            c1 < 256,
            c2 < 256,
    ;
}

/// Round trip of the program service name through type-0A groups: the
/// `k`-th character of the space-padded name is recovered from block D of
/// the group for segment `k / 2`, so the four segments together rebuild
/// the whole 8-character name.
pub proof fn lemma_group_0a_roundtrip(pi: u16, ps: Seq<u8>, k: int)
    requires
        0 <= k < 8,
    ensures
        byte_of_bits(
            group_0a_spec(pi, ps, k / 2).subrange(78 + 8 * (k % 2), 86 + 8 * (k % 2)),
        ) == padded(ps, 8)[k],
{
    let seg = k / 2;
    let r = k % 2;
    let g = group_0a_spec(pi, ps, seg);
    let p = padded(ps, 8);
    let c1 = p[2 * seg] as u16;
    let c2 = p[2 * seg + 1] as u16;
    let block_d = ((c1 & 0xFF) << 8) | (c2 & 0xFF);
    let d = pack_block_spec(block_d, OFFSET_D);
    assert(seg % 4 == seg);
    assert(g.subrange(78 + 8 * r, 86 + 8 * r) =~= d.subrange(8 * r, 8 + 8 * r));
    lemma_pack_block_bytes(block_d, OFFSET_D);
    lemma_two_byte_word(c1, c2);
    if r == 0 {
        assert((p[2 * seg] as u16) as u8 == p[2 * seg]);
        assert(2 * seg + r == k);
    } else {
        assert((p[2 * seg + 1] as u16) as u8 == p[2 * seg + 1]);
        assert(2 * seg + r == k);
    }
}

/// Round trip of the radiotext through type-2A groups: the `k`-th
/// character of the space-padded text is recovered from block C (first two
/// characters of a segment) or block D (last two) of the group for segment
/// `k / 4`, so the sixteen segments together rebuild the 64-character
/// text.
pub proof fn lemma_group_2a_roundtrip(pi: u16, rt: Seq<u8>, k: int)
    requires
        0 <= k < 64,
    ensures
        ({
            let base = if k % 4 < 2 {
                52 + 8 * (k % 4)
            } else {
                78 + 8 * ((k % 4) - 2)
            };
            byte_of_bits(group_2a_spec(pi, rt, k / 4).subrange(base, base + 8)) == padded(
                rt,
                64,
            )[k]
        }),
{
    let seg = k / 4;
    let m = k % 4;
    let g = group_2a_spec(pi, rt, seg);
    let t = padded(rt, 64);
    let c1 = t[4 * seg] as u16;
    let c2 = t[4 * seg + 1] as u16;
    let c3 = t[4 * seg + 2] as u16;
    let c4 = t[4 * seg + 3] as u16;
    let block_c = ((c1 & 0xFF) << 8) | (c2 & 0xFF);
    let block_d = ((c3 & 0xFF) << 8) | (c4 & 0xFF);
    assert(seg % 16 == seg);
    lemma_pack_block_bytes(block_c, OFFSET_C);
    lemma_pack_block_bytes(block_d, OFFSET_D);
    lemma_two_byte_word(c1, c2);
    lemma_two_byte_word(c3, c4);
    assert(4 * seg + m == k);
    if m == 0 {
        assert(g.subrange(52, 60) =~= pack_block_spec(block_c, OFFSET_C).subrange(0, 8));
        assert((t[4 * seg] as u16) as u8 == t[4 * seg]);
    } else if m == 1 {
        assert(g.subrange(60, 68) =~= pack_block_spec(block_c, OFFSET_C).subrange(8, 16));
        assert((t[4 * seg + 1] as u16) as u8 == t[4 * seg + 1]);
    } else if m == 2 {
        assert(g.subrange(78, 86) =~= pack_block_spec(block_d, OFFSET_D).subrange(0, 8));
        assert((t[4 * seg + 2] as u16) as u8 == t[4 * seg + 2]);
    } else {
        assert(g.subrange(86, 94) =~= pack_block_spec(block_d, OFFSET_D).subrange(8, 16));
        assert((t[4 * seg + 3] as u16) as u8 == t[4 * seg + 3]);
    }
}

/// The register after `k` zero-bit steps from `r`.
pub open spec fn zrun(r: u32, k: nat) -> u32
    decreases k,
{
    if k == 0 {
        r
    } else {
        crc10_step(zrun(r, (k - 1) as nat), 0)
    }
}

/// Across a stretch of zero message bits the register evolves by zero-bit
/// steps alone.
proof fn lemma_reg_zero_stretch(w: u16, a: int, b: int)
    requires
        0 <= a <= b,
        forall|i: int| a <= i < b ==> crc10_data_bit(w, i) == 0,
    ensures
        crc10_reg(w, b as nat) == zrun(crc10_reg(w, a as nat), (b - a) as nat),
    decreases b - a,
{
    if a < b {
        lemma_reg_zero_stretch(w, a, b - 1);
        assert(crc10_reg(w, b as nat) == crc10_step(
            crc10_reg(w, (b - 1) as nat),
            crc10_data_bit(w, b - 1),
        ));
        assert(zrun(crc10_reg(w, a as nat), (b - a) as nat) == crc10_step(
            zrun(crc10_reg(w, a as nat), (b - 1 - a) as nat),
            0,
        ));
    }
}

/// Zero-bit steps keep a zero register at zero.
proof fn lemma_zrun_zero(k: nat)
    ensures
        zrun(0, k) == 0,
    decreases k,
{
    if k > 0 {
        lemma_zrun_zero((k - 1) as nat);
        assert(crc10_step(0, 0) == 0) by (bit_vector);
    }
}

/// The message bits of a single-bit word: bit `j` of the word appears at
/// iteration `15 - j` and every other iteration reads zero.
proof fn lemma_single_bit_data(j: u16, i: int)
    requires
        j < 16,
        0 <= i < 26,
    ensures
        crc10_data_bit(1u16 << j, i) == if i == 15 - j {
            1u32
        } else {
            0u32
        },
{
    let k: u32 = (25 - i) as u32;
    assert(((((1u16 << j) as u32) << 10) >> k) & 1 == if k == (10 + j) as u32 {
        1u32
    } else {
        0u32
    }) by (bit_vector)
        requires
            j < 16,
            k < 26,
    ;
}

/// The register trajectory of a single-bit word `1 << j`: zeros until the
/// bit enters, then `10 + j` zero-bit steps from register 1.
proof fn lemma_reg_single_bit(j: u16)
    requires
        j < 16,
    ensures
        crc10_reg(1u16 << j, 26) == zrun(1, (10 + j) as nat),
{
    let w = 1u16 << j;
    let a = 15 - j as int;
    assert forall|i: int| 0 <= i < a implies crc10_data_bit(w, i) == 0 by {
        lemma_single_bit_data(j, i);
    }
    lemma_reg_zero_stretch(w, 0, a);
    lemma_zrun_zero((a - 0) as nat);
    assert(crc10_reg(w, a as nat) == 0);
    lemma_single_bit_data(j, a);
    assert(crc10_reg(w, (a + 1) as nat) == crc10_step(0, 1));
    assert(crc10_step(0, 1) == 1) by (bit_vector);
    assert forall|i: int| a + 1 <= i < 26 implies crc10_data_bit(w, i) == 0 by {
        lemma_single_bit_data(j, i);
    }
    lemma_reg_zero_stretch(w, a + 1, 26);
    assert(26 - (a + 1) == 10 + j);
}

/// The concrete zero-step trajectory from register 1: ten doublings up to
/// the top bit, then the polynomial folds in.
proof fn lemma_zrun_chain()
    ensures
        zrun(1, 10) == 0x400,
        zrun(1, 11) == 0x5B9,
        zrun(1, 12) == 0x6CB,
        zrun(1, 13) == 0x02F,
        zrun(1, 14) == 0x05E,
        zrun(1, 15) == 0x0BC,
        zrun(1, 16) == 0x178,
        zrun(1, 17) == 0x2F0,
        zrun(1, 18) == 0x5E0,
        zrun(1, 19) == 0x679,
        zrun(1, 20) == 0x14B,
        zrun(1, 21) == 0x296,
        zrun(1, 22) == 0x52C,
        zrun(1, 23) == 0x7E1,
        zrun(1, 24) == 0x27B,
        zrun(1, 25) == 0x4F6,
{
    assert(crc10_step(1, 0) == 2 && crc10_step(2, 0) == 4 && crc10_step(4, 0) == 8 && crc10_step(
        8,
        0,
    ) == 16 && crc10_step(16, 0) == 32 && crc10_step(32, 0) == 64 && crc10_step(64, 0) == 128
        && crc10_step(128, 0) == 256 && crc10_step(256, 0) == 512 && crc10_step(512, 0) == 0x400
        && crc10_step(0x400, 0) == 0x5B9 && crc10_step(0x5B9, 0) == 0x6CB && crc10_step(0x6CB, 0)
        == 0x02F && crc10_step(0x02F, 0) == 0x05E && crc10_step(0x05E, 0) == 0x0BC && crc10_step(
        0x0BC,
        0,
    ) == 0x178 && crc10_step(0x178, 0) == 0x2F0 && crc10_step(0x2F0, 0) == 0x5E0 && crc10_step(
        0x5E0,
        0,
    ) == 0x679 && crc10_step(0x679, 0) == 0x14B && crc10_step(0x14B, 0) == 0x296 && crc10_step(
        0x296,
        0,
    ) == 0x52C && crc10_step(0x52C, 0) == 0x7E1 && crc10_step(0x7E1, 0) == 0x27B && crc10_step(
        0x27B,
        0,
    ) == 0x4F6) by (bit_vector);
    assert(zrun(1, 0) == 1);
    assert(zrun(1, 1) == 2);
    assert(zrun(1, 2) == 4);
    assert(zrun(1, 3) == 8);
    assert(zrun(1, 4) == 16);
    assert(zrun(1, 5) == 32);
    assert(zrun(1, 6) == 64);
    assert(zrun(1, 7) == 128);
    assert(zrun(1, 8) == 256);
    assert(zrun(1, 9) == 512);
    assert(zrun(1, 10) == 0x400);
    assert(zrun(1, 11) == 0x5B9);
    assert(zrun(1, 12) == 0x6CB);
    assert(zrun(1, 13) == 0x02F);
    assert(zrun(1, 14) == 0x05E);
    assert(zrun(1, 15) == 0x0BC);
    assert(zrun(1, 16) == 0x178);
    assert(zrun(1, 17) == 0x2F0);
    assert(zrun(1, 18) == 0x5E0);
    assert(zrun(1, 19) == 0x679);
    assert(zrun(1, 20) == 0x14B);
    assert(zrun(1, 21) == 0x296);
    assert(zrun(1, 22) == 0x52C);
    assert(zrun(1, 23) == 0x7E1);
    assert(zrun(1, 24) == 0x27B);
    assert(zrun(1, 25) == 0x4F6);
}

/// One register step is XOR-linear in the register and the incoming bit.
proof fn lemma_step_linear(r1: u32, r2: u32, b1: u32, b2: u32)
    requires
        b1 <= 1,
        b2 <= 1,
    ensures
        crc10_step(r1 ^ r2, b1 ^ b2) == crc10_step(r1, b1) ^ crc10_step(r2, b2),
{
    assert(crc10_step(r1 ^ r2, b1 ^ b2) == crc10_step(r1, b1) ^ crc10_step(r2, b2)) by (bit_vector)
        requires
            b1 <= 1,
            b2 <= 1,
    ;
}

/// The whole shift register computation is XOR-linear in the word.
proof fn lemma_reg_linear(w1: u16, w2: u16, n: nat)
    requires
        n <= 26,
    ensures
        crc10_reg((w1 ^ w2) as u16, n) == crc10_reg(w1, n) ^ crc10_reg(w2, n),
    decreases n,
{
    if n == 0 {
        assert(0u32 ^ 0u32 == 0u32) by (bit_vector);
    } else {
        lemma_reg_linear(w1, w2, (n - 1) as nat);
        let i = n - 1;
        let k: u32 = (25 - i) as u32;
        assert((((((w1 ^ w2) as u16) as u32) << 10) >> k) & 1 == ((((w1 as u32) << 10) >> k) & 1)
            ^ ((((w2 as u32) << 10) >> k) & 1) && (((w1 as u32) << 10) >> k) & 1 <= 1 && (((
        w2 as u32) << 10) >> k) & 1 <= 1) by (bit_vector);
        assert(crc10_data_bit((w1 ^ w2) as u16, i) == crc10_data_bit(w1, i) ^ crc10_data_bit(
            w2,
            i,
        ));
        assert(crc10_data_bit(w1, i) <= 1 && crc10_data_bit(w2, i) <= 1);
        lemma_step_linear(
            crc10_reg(w1, (n - 1) as nat),
            crc10_reg(w2, (n - 1) as nat),
            crc10_data_bit(w1, i),
            crc10_data_bit(w2, i),
        );
        assert(crc10_reg((w1 ^ w2) as u16, n) == crc10_step(
            crc10_reg((w1 ^ w2) as u16, (n - 1) as nat),
            crc10_data_bit((w1 ^ w2) as u16, i),
        ));
        assert(crc10_reg(w1, n) == crc10_step(crc10_reg(w1, (n - 1) as nat), crc10_data_bit(w1, i)));
        assert(crc10_reg(w2, n) == crc10_step(crc10_reg(w2, (n - 1) as nat), crc10_data_bit(w2, i)));
    }
}

/// CRC sensitivity: flipping any one of the fifteen upper bits of a word
/// changes its checkword CRC.  (The lowest bit is the one exception: the
/// register's feedback bit is examined before the shift, so the last
/// message bit never reaches the feedback path and flipping it leaves the
/// ten checkword bits unchanged.)  Together with the exact contract of
/// `pack_block`, which makes the 26 emitted bits a function of the word
/// and offset alone, this is the determinism-and-sensitivity statement of
/// the block encoding.
pub proof fn lemma_crc10_bit_sensitivity(w: u16, j: u16)
    requires
        1 <= j < 16,
    ensures
        crc10((w ^ (1u16 << j)) as u16) != crc10(w),
{
    let e: u16 = 1u16 << j;
    lemma_reg_linear(w, e, 26);
    lemma_reg_single_bit(j);
    lemma_zrun_chain();
    let c = crc10_reg(e, 26);
    assert(c == zrun(1, (10 + j) as nat));
    assert(c & 0x3FF != 0) by {
        if j == 1 {
            assert(zrun(1, 11) & 0x3FF != 0) by (bit_vector)
                requires
                    zrun(1, 11) == 0x5B9u32,
            ;
        } else if j == 2 {
            assert(zrun(1, 12) & 0x3FF != 0) by (bit_vector)
                requires
                    zrun(1, 12) == 0x6CBu32,
            ;
        } else if j == 3 {
            assert(zrun(1, 13) & 0x3FF != 0) by (bit_vector)
                requires
                    zrun(1, 13) == 0x02Fu32,
            ;
        } else if j == 4 {
            assert(zrun(1, 14) & 0x3FF != 0) by (bit_vector)
                requires
                    zrun(1, 14) == 0x05Eu32,
            ;
        } else if j == 5 {
            assert(zrun(1, 15) & 0x3FF != 0) by (bit_vector)
                requires
                    zrun(1, 15) == 0x0BCu32,
            ;
        } else if j == 6 {
            assert(zrun(1, 16) & 0x3FF != 0) by (bit_vector)
                requires
                    zrun(1, 16) == 0x178u32,
            ;
        } else if j == 7 {
            assert(zrun(1, 17) & 0x3FF != 0) by (bit_vector)
                requires
                    zrun(1, 17) == 0x2F0u32,
            ;
        } else if j == 8 {
            assert(zrun(1, 18) & 0x3FF != 0) by (bit_vector)
                requires
                    zrun(1, 18) == 0x5E0u32,
            ;
        } else if j == 9 {
            assert(zrun(1, 19) & 0x3FF != 0) by (bit_vector)
                requires
                    zrun(1, 19) == 0x679u32,
            ;
        } else if j == 10 {
            assert(zrun(1, 20) & 0x3FF != 0) by (bit_vector)
                requires
                    zrun(1, 20) == 0x14Bu32,
            ;
        } else if j == 11 {
            assert(zrun(1, 21) & 0x3FF != 0) by (bit_vector)
                requires
                    zrun(1, 21) == 0x296u32,
            ;
        } else if j == 12 {
            assert(zrun(1, 22) & 0x3FF != 0) by (bit_vector)
                requires
                    zrun(1, 22) == 0x52Cu32,
            ;
        } else if j == 13 {
            assert(zrun(1, 23) & 0x3FF != 0) by (bit_vector)
                requires
                    zrun(1, 23) == 0x7E1u32,
            ;
        } else if j == 14 {
            assert(zrun(1, 24) & 0x3FF != 0) by (bit_vector)
                requires
                    zrun(1, 24) == 0x27Bu32,
            ;
        } else {
            assert(j == 15);
            assert(zrun(1, 25) & 0x3FF != 0) by (bit_vector)
                requires
                    zrun(1, 25) == 0x4F6u32,
            ;
        }
    }
    let a = crc10_reg(w, 26);
    assert(crc10_reg((w ^ e) as u16, 26) == a ^ c);
    assert(((a ^ c) & 0x3FF) as u16 != (a & 0x3FF) as u16) by (bit_vector)
        requires
            c & 0x3FF != 0u32,
    ;
}

/// Sensitivity carried to the emitted checkword: for any offset word,
/// flipping one of the fifteen upper bits of the data word changes the ten
/// checkword bits that `pack_block` emits.
pub proof fn lemma_checkword_sensitivity(w: u16, offset: u16, j: u16)
    requires
        1 <= j < 16,
    ensures
        ((crc10((w ^ (1u16 << j)) as u16) ^ offset) & 0x3FF) != ((crc10(w) ^ offset) & 0x3FF),
{
    lemma_crc10_bit_sensitivity(w, j);
    let c1 = crc10((w ^ (1u16 << j)) as u16);
    let c2 = crc10(w);
    assert(c1 < 0x400 && c2 < 0x400) by {
        let r1 = crc10_reg((w ^ (1u16 << j)) as u16, 26);
        let r2 = crc10_reg(w, 26);
        assert(((r1 & 0x3FF) as u16) < 0x400 && ((r2 & 0x3FF) as u16) < 0x400) by (bit_vector);
    }
    assert(((c1 ^ offset) & 0x3FF) != ((c2 ^ offset) & 0x3FF)) by (bit_vector)
        requires
            c1 != c2,
            c1 < 0x400,
            c2 < 0x400,
    ;
}

} // verus!

