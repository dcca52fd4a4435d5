use rustmpx::rds::{group_0a, group_2a, pack_block, rds_crc10, RdsConfig};

fn bits_of_u16(w: u16) -> Vec<u8> {
    (0..16).rev().map(|i| ((w >> i) & 1) as u8).collect()
}

fn byte_from_bits(bits: &[u8]) -> u8 {
    bits.iter().fold(0u8, |acc, &b| (acc << 1) | b)
}

#[test]
fn crc10_known_values() {
    assert_eq!(rds_crc10(0x0000), 0x000);
    assert_eq!(rds_crc10(0x1234), 0x17C);
    assert_eq!(rds_crc10(0x0002), 0x1B9);
    assert_eq!(rds_crc10(0x8000), 0x0F6);
    assert_eq!(rds_crc10(0x5241), 0x056);
}

#[test]
fn pack_block_known_vector() {
    // 0x1234 with the block A offset: crc10(0x1234) = 0x17C, 0x17C ^ 0x0FC = 0x180.
    let bits = pack_block(0x1234, 0x0FC);
    let expected: Vec<u8> = vec![
        0, 0, 0, 1, 0, 0, 1, 0, 0, 0, 1, 1, 0, 1, 0, 0, // data bits of 0x1234
        0, 1, 1, 0, 0, 0, 0, 0, 0, 0, // checkword 0x180
    ];
    assert_eq!(bits, expected);
}

#[test]
fn pack_block_deterministic() {
    for &(w, off) in &[(0x1234u16, 0x0FCu16), (0xFFFF, 0x1B4), (0x0000, 0x198)] {
        assert_eq!(pack_block(w, off), pack_block(w, off));
        assert_eq!(pack_block(w, off).len(), 26);
    }
}

#[test]
fn crc10_single_bit_sensitivity() {
    // Flipping any of the fifteen upper bits changes the CRC.
    for &w in &[0x0000u16, 0x1234, 0xFFFF, 0xA5A5] {
        for j in 1..16u16 {
            assert_ne!(rds_crc10(w ^ (1 << j)), rds_crc10(w), "w={w:04X} j={j}");
        }
    }
}

#[test]
fn group_0a_carries_pi_and_segment() {
    let cfg = RdsConfig { pi: 0x1234, ps: b"RADIO".to_vec(), rt: Vec::new() };
    for seg in 0..4usize {
        let g = group_0a(&cfg, seg);
        assert_eq!(g.len(), 104);
        // Block A data bits carry the PI code.
        assert_eq!(&g[0..16], bits_of_u16(0x1234).as_slice());
        // Block B data bits carry the 2-bit segment address.
        assert_eq!(&g[26..42], bits_of_u16(seg as u16).as_slice());
        // Block C is zero.
        assert_eq!(&g[52..68], bits_of_u16(0).as_slice());
    }
}

#[test]
fn group_0a_roundtrip_rebuilds_ps() {
    let cfg = RdsConfig { pi: 0x1234, ps: b"RADIO".to_vec(), rt: Vec::new() };
    let mut recovered = Vec::new();
    for seg in 0..4usize {
        let g = group_0a(&cfg, seg);
        recovered.push(byte_from_bits(&g[78..86]));
        recovered.push(byte_from_bits(&g[86..94]));
    }
    assert_eq!(recovered, b"RADIO   ".to_vec());
}

#[test]
fn group_2a_roundtrip_rebuilds_rt() {
    let rt = b"Welcome to RADIO".to_vec();
    let cfg = RdsConfig { pi: 0x1234, ps: Vec::new(), rt: rt.clone() };
    let mut recovered = Vec::new();
    for seg in 0..16usize {
        let g = group_2a(&cfg, seg);
        assert_eq!(g.len(), 104);
        recovered.push(byte_from_bits(&g[52..60]));
        recovered.push(byte_from_bits(&g[60..68]));
        recovered.push(byte_from_bits(&g[78..86]));
        recovered.push(byte_from_bits(&g[86..94]));
    }
    let mut expected = rt;
    expected.resize(64, b' ');
    assert_eq!(recovered, expected);
}

#[test]
fn group_2a_block_b_carries_type_and_segment() {
    let cfg = RdsConfig { pi: 0x0001, ps: Vec::new(), rt: b"x".to_vec() };
    for seg in 0..16usize {
        let g = group_2a(&cfg, seg);
        assert_eq!(&g[26..42], bits_of_u16(4u16 | seg as u16).as_slice());
    }
}

#[test]
fn ps_longer_than_eight_is_truncated() {
    let cfg = RdsConfig { pi: 0, ps: b"ABCDEFGHIJKL".to_vec(), rt: Vec::new() };
    let mut recovered = Vec::new();
    for seg in 0..4usize {
        let g = group_0a(&cfg, seg);
        recovered.push(byte_from_bits(&g[78..86]));
        recovered.push(byte_from_bits(&g[86..94]));
    }
    assert_eq!(recovered, b"ABCDEFGH".to_vec());
}
