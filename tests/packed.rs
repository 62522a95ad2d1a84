use binius_core::packed::{FieldAffineTransformation, SimdTransformation};

fn lanes(x: u128) -> Vec<u8> {
    (0..16).map(|i| ((x >> (8 * i)) & 0xff) as u8).collect()
}

fn pack(bytes: &[u8]) -> u128 {
    bytes.iter().enumerate().fold(0u128, |acc, (i, b)| acc | ((*b as u128) << (8 * i)))
}

fn scalar_transform(bases: &[u8], x: u8) -> u8 {
    (0..8).filter(|k| (x >> k) & 1 == 1).fold(0u8, |acc, k| acc ^ bases[k])
}

#[test]
fn identity_bases_leave_every_lane_unchanged() {
    let t = SimdTransformation::new(FieldAffineTransformation {
        bases: vec![1, 2, 4, 8, 16, 32, 64, 128],
    });
    let input = 0x0123_4567_89ab_cdef_fedc_ba98_7654_3210u128;
    assert_eq!(t.transform(input), input);
}

#[test]
fn all_ones_bases_give_lane_parity() {
    let t = SimdTransformation::new(FieldAffineTransformation { bases: vec![1; 8] });
    let input = pack(&[0, 1, 3, 7, 0xff, 0x80, 0x81, 0x55, 0xaa, 2, 6, 14, 30, 62, 126, 254]);
    let out = lanes(t.transform(input));
    let expected: Vec<u8> = lanes(input).iter().map(|b| (b.count_ones() % 2) as u8).collect();
    assert_eq!(out, expected);
}

#[test]
fn transform_matches_scalar_map_in_each_lane() {
    let bases = vec![0x1d, 0x3a, 0x74, 0xe8, 0xcd, 0x87, 0x13, 0x26];
    let t = SimdTransformation::new(FieldAffineTransformation { bases: bases.clone() });
    let bytes: Vec<u8> = (0..16u8).map(|i| i.wrapping_mul(37).wrapping_add(5)).collect();
    let out = lanes(t.transform(pack(&bytes)));
    for i in 0..16 {
        assert_eq!(out[i], scalar_transform(&bases, bytes[i]));
    }
    // a single set bit selects its base
    assert_eq!(lanes(t.transform(pack(&[0x08; 16]))), vec![0xe8; 16]);
    assert_eq!(t.transform(0), 0);
}
