use binius_core::tower_simd::{
    alpha, blend_odd_even, duplicate_odd, dup_shuffle, even_mask, flip_even_odd, flip_shuffle,
    make_epi8_mask_shuffle, shuffle_epi8, xor,
};

/// The word whose bytes, from byte 15 down to byte 0, are `high_to_low`.
fn set_epi8(high_to_low: [u8; 16]) -> u128 {
    high_to_low.iter().fold(0u128, |acc, b| (acc << 8) | *b as u128)
}

fn bytes(x: u128) -> Vec<u8> {
    (0..16).map(|i| ((x >> (8 * i)) & 0xff) as u8).collect()
}

#[test]
fn dup_shuffle_masks() {
    assert_eq!(dup_shuffle(3), set_epi8([14, 14, 12, 12, 10, 10, 8, 8, 6, 6, 4, 4, 2, 2, 0, 0]));
    assert_eq!(dup_shuffle(4), set_epi8([13, 12, 13, 12, 9, 8, 9, 8, 5, 4, 5, 4, 1, 0, 1, 0]));
    assert_eq!(dup_shuffle(5), set_epi8([11, 10, 9, 8, 11, 10, 9, 8, 3, 2, 1, 0, 3, 2, 1, 0]));
    assert_eq!(dup_shuffle(6), set_epi8([7, 6, 5, 4, 3, 2, 1, 0, 7, 6, 5, 4, 3, 2, 1, 0]));
}

#[test]
fn flip_shuffle_masks() {
    assert_eq!(flip_shuffle(3), set_epi8([14, 15, 12, 13, 10, 11, 8, 9, 6, 7, 4, 5, 2, 3, 0, 1]));
    assert_eq!(flip_shuffle(4), set_epi8([13, 12, 15, 14, 9, 8, 11, 10, 5, 4, 7, 6, 1, 0, 3, 2]));
    assert_eq!(flip_shuffle(5), set_epi8([11, 10, 9, 8, 15, 14, 13, 12, 3, 2, 1, 0, 7, 6, 5, 4]));
    assert_eq!(flip_shuffle(6), set_epi8([7, 6, 5, 4, 3, 2, 1, 0, 15, 14, 13, 12, 11, 10, 9, 8]));
}

#[test]
fn epi8_mask_shuffle_masks() {
    assert_eq!(
        make_epi8_mask_shuffle(4),
        set_epi8([15, 15, 13, 13, 11, 11, 9, 9, 7, 7, 5, 5, 3, 3, 1, 1])
    );
    assert_eq!(
        make_epi8_mask_shuffle(5),
        set_epi8([15, 15, 15, 15, 11, 11, 11, 11, 7, 7, 7, 7, 3, 3, 3, 3])
    );
    assert_eq!(
        make_epi8_mask_shuffle(6),
        set_epi8([15, 15, 15, 15, 15, 15, 15, 15, 7, 7, 7, 7, 7, 7, 7, 7])
    );
    assert_eq!(make_epi8_mask_shuffle(7), set_epi8([15; 16]));
}

#[test]
fn even_and_alpha_masks() {
    assert_eq!(even_mask(3), 0x00ff_00ff_00ff_00ff_00ff_00ff_00ff_00ff);
    assert_eq!(even_mask(4), 0x0000_ffff_0000_ffff_0000_ffff_0000_ffff);
    assert_eq!(even_mask(5), 0x0000_0000_ffff_ffff_0000_0000_ffff_ffff);
    assert_eq!(even_mask(6), 0x0000_0000_0000_0000_ffff_ffff_ffff_ffff);
    assert_eq!(bytes(alpha(3, false)), vec![0x10; 16]);
    assert_eq!(bytes(alpha(3, true)), vec![0xd3; 16]);
    assert_eq!(alpha(4, false), 0x0100_0100_0100_0100_0100_0100_0100_0100);
    assert_eq!(alpha(5, false), 0x0001_0000_0001_0000_0001_0000_0001_0000);
    assert_eq!(alpha(6, true), 0x0000_0001_0000_0000_0000_0001_0000_0000);
}

#[test]
fn shuffle_selects_and_zeroes_bytes() {
    let a = 0x0f0e_0d0c_0b0a_0908_0706_0504_0302_0100u128 + 0x1010_1010_1010_1010_1010_1010_1010_1010;
    // reverse the bytes
    let rev = set_epi8([0, 1, 2, 3, 4, 5, 6, 7, 8, 9, 10, 11, 12, 13, 14, 15]);
    let expected: Vec<u8> = bytes(a).into_iter().rev().collect();
    assert_eq!(bytes(shuffle_epi8(a, rev)), expected);
    // a set high bit in the mask zeroes the byte
    assert_eq!(shuffle_epi8(a, set_epi8([0x80; 16])), 0);
    assert_eq!(bytes(shuffle_epi8(a, set_epi8([0x83; 16]))), vec![0; 16]);
    assert_eq!(bytes(shuffle_epi8(a, set_epi8([0x13; 16]))), vec![0x13; 16]);
}

#[test]
fn flip_and_duplicate_scalars() {
    let v = 0x1f1e_1d1c_1b1a_1918_1716_1514_1312_1110u128;
    assert_eq!(flip_even_odd(v, 3), 0x1e1f_1c1d_1a1b_1819_1617_1415_1213_1011);
    assert_eq!(flip_even_odd(v, 6), 0x1716_1514_1312_1110_1f1e_1d1c_1b1a_1918);
    assert_eq!(duplicate_odd(v, 3), 0x1e1e_1c1c_1a1a_1818_1616_1414_1212_1010);
    assert_eq!(duplicate_odd(v, 5), 0x1b1a_1918_1b1a_1918_1312_1110_1312_1110);
    assert_eq!(flip_even_odd(flip_even_odd(v, 4), 4), v);
}

#[test]
fn blend_takes_odd_from_first_and_even_from_second() {
    let a = 0xaaaa_aaaa_aaaa_aaaa_aaaa_aaaa_aaaa_aaaau128;
    let b = 0xbbbb_bbbb_bbbb_bbbb_bbbb_bbbb_bbbb_bbbbu128;
    assert_eq!(blend_odd_even(a, b, 3), 0xaabb_aabb_aabb_aabb_aabb_aabb_aabb_aabb);
    assert_eq!(blend_odd_even(a, b, 4), 0xaaaa_bbbb_aaaa_bbbb_aaaa_bbbb_aaaa_bbbb);
    assert_eq!(blend_odd_even(a, b, 6), 0xaaaa_aaaa_aaaa_aaaa_bbbb_bbbb_bbbb_bbbb);
}

#[test]
fn xor_adds_packed_words() {
    assert_eq!(xor(0xff00, 0x0ff0), 0xf0f0);
    assert_eq!(xor(v(), v()), 0);
}

fn v() -> u128 {
    0x0123_4567_89ab_cdef_0011_2233_4455_6677
}
