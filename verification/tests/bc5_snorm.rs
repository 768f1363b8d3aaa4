use ltk::texture::{decode_bc4_snorm_block, decode_bc5_snorm};

fn bc4_block(e0: u8, e1: u8, indices: [u8; 16]) -> [u8; 8] {
    let mut packed = 0u64;
    for (i, &index) in indices.iter().enumerate() {
        assert!(index < 8);
        packed |= (index as u64) << (i * 3);
    }
    let bits = packed.to_le_bytes();
    [e0, e1, bits[0], bits[1], bits[2], bits[3], bits[4], bits[5]]
}

#[test]
fn endpoints_map_to_full_range() {
    // e0 = 127 (1.0), e1 = -127 (-1.0); e0 > e1: 8-entry mode
    let block = bc4_block(127, 0x81, [0, 1, 0, 1, 0, 1, 0, 1, 0, 1, 0, 1, 0, 1, 0, 1]);
    let texels = decode_bc4_snorm_block(block);
    for pair in texels.chunks_exact(2) {
        assert_eq!(pair, [127, -127]);
    }
}

#[test]
fn neg_128_is_clamped_to_neg_127() {
    let block = bc4_block(0x80, 0x80, [0; 16]);
    assert_eq!(decode_bc4_snorm_block(block), [-127; 16]);
}

#[test]
fn mode_selection_uses_raw_endpoints_not_clamped() {
    // e0 = -127, e1 = -128: raw comparison -127 > -128 selects the 8-entry
    // mode, where every entry interpolates between -1.0 and -1.0.
    let block = bc4_block(0x81, 0x80, [7; 16]);
    assert_eq!(decode_bc4_snorm_block(block), [-127; 16]);
}

#[test]
fn zero_stays_zero() {
    let block = bc4_block(0, 0x81, [0; 16]);
    assert_eq!(decode_bc4_snorm_block(block), [0; 16]);
}

#[test]
fn six_entry_mode_has_explicit_min_max() {
    // e0 = -127 <= e1 = 127: 6-entry mode; indices 6 and 7 are -1.0 / 1.0
    let block = bc4_block(0x81, 127, [6, 7, 6, 7, 6, 7, 6, 7, 6, 7, 6, 7, 6, 7, 6, 7]);
    let texels = decode_bc4_snorm_block(block);
    for pair in texels.chunks_exact(2) {
        assert_eq!(pair, [-127, 127]);
    }
}

#[test]
fn eight_entry_mode_interpolates() {
    // Index 2 = (6 * 127 + 1 * -127) / 7 = 635/7, about 90.7, so 91
    let block = bc4_block(127, 0x81, [2; 16]);
    assert_eq!(decode_bc4_snorm_block(block), [91; 16]);
}

#[test]
fn decodes_rg_channels_and_partial_blocks() {
    // One block, but a 2x2 surface: texels outside the surface are skipped
    let mut block = [0u8; 16];
    block[..8].copy_from_slice(&bc4_block(127, 0x81, [0; 16])); // red = 1.0
    block[8..].copy_from_slice(&bc4_block(0x81, 127, [0; 16])); // green = -1.0

    let rg = decode_bc5_snorm(&block, 2, 2);
    assert_eq!(rg.len(), 2 * 2 * 2);
    for pixel in rg.chunks_exact(2) {
        assert_eq!(pixel, [127i8 as u8, -127i8 as u8]);
    }
}

#[test]
fn six_entry_mode_interpolates_in_fifths() {
    // e0 = 0 <= e1 = 127: index 3 = (0 * 3 + 127 * 2) / 5 = 50.8, so 51
    let block = bc4_block(0, 127, [3; 16]);
    assert_eq!(decode_bc4_snorm_block(block), [51; 16]);
}

#[test]
fn negative_interpolation_rounds_away_from_zero_when_nearer() {
    // e0 = -1, e1 = -127 (e0 > e1): index 2 = (6 * -1 + 1 * -127) / 7 = -19
    let block = bc4_block(0xFF, 0x81, [2; 16]);
    assert_eq!(decode_bc4_snorm_block(block), [-19; 16]);
}
