use qres_core::bitpack::{pack_deltas, BLOCK_SIZE};

/// Reference packer, bit buffer flushed byte by byte.
fn reference_pack(deltas: &[i16]) -> Vec<u8> {
    let zz: Vec<u16> = deltas.iter().map(|&n| ((n << 1) ^ (n >> 15)) as u16).collect();
    let mut result = Vec::new();
    for chunk in zz.chunks(BLOCK_SIZE) {
        let max_val = *chunk.iter().max().unwrap_or(&0);
        let bit_width = if max_val == 0 { 1 } else { 16 - max_val.leading_zeros() as u8 };
        result.push(bit_width);
        let mut bit_buffer: u64 = 0;
        let mut bits_in_buffer: u8 = 0;
        for &val in chunk {
            bit_buffer |= (val as u64) << bits_in_buffer;
            bits_in_buffer += bit_width;
            while bits_in_buffer >= 8 {
                result.push(bit_buffer as u8);
                bit_buffer >>= 8;
                bits_in_buffer -= 8;
            }
        }
        if bits_in_buffer > 0 {
            result.push(bit_buffer as u8);
        }
    }
    result
}

#[test]
fn empty_input_packs_to_nothing() {
    assert!(pack_deltas(&[]).is_empty());
}

#[test]
fn zigzag_small_block() {
    // zigzag: 0 -> 0, -1 -> 1, 1 -> 2, -2 -> 3; max 3 needs 2 bits.
    let out = pack_deltas(&[0, -1, 1, -2]);
    // values 0,1,2,3 at 2 bits: 0b11_10_01_00 = 0xE4
    assert_eq!(out, vec![2, 0xE4]);
}

#[test]
fn all_zero_block_uses_one_bit() {
    let out = pack_deltas(&[0; 10]);
    assert_eq!(out, vec![1, 0, 0]);
}

#[test]
fn extremes_use_sixteen_bits() {
    let out = pack_deltas(&[i16::MIN, i16::MAX]);
    // zigzag(i16::MIN) = 65535, zigzag(i16::MAX) = 65534
    assert_eq!(out, vec![16, 0xFF, 0xFF, 0xFE, 0xFF]);
}

#[test]
fn matches_reference_over_several_blocks() {
    let mut deltas: Vec<i16> = Vec::new();
    let mut x: u32 = 12345;
    for i in 0..1000u32 {
        x = x.wrapping_mul(1103515245).wrapping_add(12345);
        let span: i32 = 1 << (i % 15);
        let r = (x >> 8) as i32;
        deltas.push(((r % (2 * span + 1)) - span) as i16);
    }
    assert_eq!(pack_deltas(&deltas), reference_pack(&deltas));
    for len in [1usize, 255, 256, 257, 512, 513] {
        assert_eq!(pack_deltas(&deltas[..len]), reference_pack(&deltas[..len]));
    }
}

#[test]
fn block_headers_follow_block_size() {
    let deltas = vec![1i16; BLOCK_SIZE + 1];
    let out = pack_deltas(&deltas);
    // first block: width 2 (zigzag(1) = 2), 256 * 2 bits = 64 bytes; second block: 1 value.
    assert_eq!(out[0], 2);
    assert_eq!(out.len(), 1 + 64 + 1 + 1);
    assert_eq!(out[65], 2);
    assert_eq!(out[66], 2);
}
