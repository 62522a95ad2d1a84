//! Byte-shuffle building blocks for packed binary tower fields in a 128-bit
//! word. A scalar of `2^log_bits` bits is a pair of sub-elements of half its
//! width, the even one in the low half and the odd one in the high half.
use vstd::prelude::*;

use crate::packed::lane;

verus! {

/// The number of bytes of a scalar of `2^log_bits` bits, `3 <= log_bits <= 7`.
pub open spec fn scalar_bytes(log_bits: u32) -> u128 {
    if log_bits == 3 {
        1
    } else if log_bits == 4 {
        2
    } else if log_bits == 5 {
        4
    } else if log_bits == 6 {
        8
    } else {
        16
    }
}

/// Byte `j` of `shuffle_epi8(a, mask)`: zero when the mask byte's high bit is
/// set, else the byte of `a` its low four bits select.
pub open spec fn shuffled_byte(a: u128, m: u8) -> u8 {
    if m & 0x80 != 0 {
        0
    } else {
        lane(a, (m & 0x0f) as u128)
    }
}

/// Byte `i` of `x`.
fn get_byte(x: u128, i: u128) -> (r: u8)
    requires
        i < 16,
    ensures
        r == lane(x, i),
{
    ((x >> (8 * i)) & 0xff) as u8
}

/// Setting byte `j` of a word whose bytes from `j` on are zero.
proof fn lemma_set_byte(r: u128, b: u8, j: u128)
    requires
        j < 16,
        r >> ((8 * j) as u128) == 0,
    ensures
        lane(r | ((b as u128) << ((8 * j) as u128)), j) == b,
        forall|k: u128| k < j ==> #[trigger] lane(r | ((b as u128) << ((8 * j) as u128)), k) == lane(
            r,
            k,
        ),
        j + 1 < 16 ==> (r | ((b as u128) << ((8 * j) as u128))) >> ((8 * (j + 1)) as u128) == 0,
{
    assert((((r | ((b as u128) << ((8 * j) as u128))) >> ((8 * j) as u128)) & 0xff) as u8 == b)
        by (bit_vector)
        requires
            j < 16,
            r >> ((8 * j) as u128) == 0,
    ;
    assert forall|k: u128| k < j implies #[trigger] lane(
        r | ((b as u128) << ((8 * j) as u128)),
        k,
    ) == lane(r, k) by {
        assert((((r | ((b as u128) << ((8 * j) as u128))) >> ((8 * k) as u128)) & 0xff) as u8 == ((r
            >> ((8 * k) as u128)) & 0xff) as u8) by (bit_vector)
            requires
                k < j,
                j < 16,
        ;
    }
    assert(j + 1 < 16 ==> (r | ((b as u128) << ((8 * j) as u128))) >> ((8 * (j + 1)) as u128) == 0)
        by (bit_vector)
        requires
            j < 16,
            r >> ((8 * j) as u128) == 0,
    ;
}

/// Shuffles the bytes of `a` as `mask` selects, as SSSE3's `pshufb` does on
/// one 128-bit lane.
pub fn shuffle_epi8(a: u128, mask: u128) -> (r: u128)
    ensures
        forall|j: u128| j < 16 ==> #[trigger] lane(r, j) == shuffled_byte(a, lane(mask, j)),
{
    let mut r: u128 = 0;
    let mut j: u128 = 0;
    assert(0u128 >> 0u128 == 0) by (bit_vector);
    while j < 16
        invariant
            j <= 16,
            j < 16 ==> r >> ((8 * j) as u128) == 0,
            forall|k: u128| k < j ==> #[trigger] lane(r, k) == shuffled_byte(a, lane(mask, k)),
        decreases 16 - j,
    {
        let m = get_byte(mask, j);
        assert(m & 0x0f < 16) by (bit_vector);
        let b = if m & 0x80 != 0 {
            0u8
        } else {
            get_byte(a, (m & 0x0f) as u128)
        };
        proof {
            lemma_set_byte(r, b, j);
        }
        r = r | ((b as u128) << (8 * j));
        j = j + 1;
    }
    r
}

proof fn lemma_dup_shuffle_bytes()
    by (bit_vector)
    ensures
        forall|j: u128|
            j < 16 ==> #[trigger] lane(0x0e0e_0c0c_0a0a_0808_0606_0404_0202_0000u128, j) == (j
                & !1u128) as u8,
        forall|j: u128|
            j < 16 ==> #[trigger] lane(0x0d0c_0d0c_0908_0908_0504_0504_0100_0100u128, j) == (j
                & !2u128) as u8,
        forall|j: u128|
            j < 16 ==> #[trigger] lane(0x0b0a_0908_0b0a_0908_0302_0100_0302_0100u128, j) == (j
                & !4u128) as u8,
        forall|j: u128|
            j < 16 ==> #[trigger] lane(0x0706_0504_0302_0100_0706_0504_0302_0100u128, j) == (j
                & !8u128) as u8,
{
}

/// The shuffle mask that copies each even scalar over the odd one beside it.
pub fn dup_shuffle(log_bits: u32) -> (r: u128)
    requires
        3 <= log_bits <= 6,
    ensures
        forall|j: u128| j < 16 ==> #[trigger] lane(r, j) == (j & !scalar_bytes(log_bits)) as u8,
{
    proof {
        lemma_dup_shuffle_bytes();
    }
    if log_bits == 3 {
        0x0e0e_0c0c_0a0a_0808_0606_0404_0202_0000u128
    } else if log_bits == 4 {
        0x0d0c_0d0c_0908_0908_0504_0504_0100_0100u128
    } else if log_bits == 5 {
        0x0b0a_0908_0b0a_0908_0302_0100_0302_0100u128
    } else {
        0x0706_0504_0302_0100_0706_0504_0302_0100u128
    }
}

proof fn lemma_flip_shuffle_bytes()
    by (bit_vector)
    ensures
        forall|j: u128|
            j < 16 ==> #[trigger] lane(0x0e0f_0c0d_0a0b_0809_0607_0405_0203_0001u128, j) == (j
                ^ 1u128) as u8,
        forall|j: u128|
            j < 16 ==> #[trigger] lane(0x0d0c_0f0e_0908_0b0a_0504_0706_0100_0302u128, j) == (j
                ^ 2u128) as u8,
        forall|j: u128|
            j < 16 ==> #[trigger] lane(0x0b0a_0908_0f0e_0d0c_0302_0100_0706_0504u128, j) == (j
                ^ 4u128) as u8,
        forall|j: u128|
            j < 16 ==> #[trigger] lane(0x0706_0504_0302_0100_0f0e_0d0c_0b0a_0908u128, j) == (j
                ^ 8u128) as u8,
{
}

/// The shuffle mask that swaps each even scalar with the odd one beside it.
pub fn flip_shuffle(log_bits: u32) -> (r: u128)
    requires
        3 <= log_bits <= 6,
    ensures
        forall|j: u128| j < 16 ==> #[trigger] lane(r, j) == (j ^ scalar_bytes(log_bits)) as u8,
{
    proof {
        lemma_flip_shuffle_bytes();
    }
    if log_bits == 3 {
        0x0e0f_0c0d_0a0b_0809_0607_0405_0203_0001u128
    } else if log_bits == 4 {
        0x0d0c_0f0e_0908_0b0a_0504_0706_0100_0302u128
    } else if log_bits == 5 {
        0x0b0a_0908_0f0e_0d0c_0302_0100_0706_0504u128
    } else {
        0x0706_0504_0302_0100_0f0e_0d0c_0b0a_0908u128
    }
}

proof fn lemma_epi8_mask_shuffle_bytes()
    by (bit_vector)
    ensures
        forall|j: u128|
            j < 16 ==> #[trigger] lane(0x0f0f_0d0d_0b0b_0909_0707_0505_0303_0101u128, j) == (j
                | 1u128) as u8,
        forall|j: u128|
            j < 16 ==> #[trigger] lane(0x0f0f_0f0f_0b0b_0b0b_0707_0707_0303_0303u128, j) == (j
                | 3u128) as u8,
        forall|j: u128|
            j < 16 ==> #[trigger] lane(0x0f0f_0f0f_0f0f_0f0f_0707_0707_0707_0707u128, j) == (j
                | 7u128) as u8,
        forall|j: u128|
            j < 16 ==> #[trigger] lane(0x0f0f_0f0f_0f0f_0f0f_0f0f_0f0f_0f0f_0f0fu128, j) == (j
                | 15u128) as u8,
{
}

/// The shuffle mask that copies the highest byte of each scalar to all of its
/// bytes, as a mask of the scalar's highest bit needs.
pub fn make_epi8_mask_shuffle(log_bits: u32) -> (r: u128)
    requires
        4 <= log_bits <= 7,
    ensures
        forall|j: u128|
            j < 16 ==> #[trigger] lane(r, j) == (j | (scalar_bytes(log_bits) - 1) as u128) as u8,
{
    proof {
        lemma_epi8_mask_shuffle_bytes();
    }
    if log_bits == 4 {
        0x0f0f_0d0d_0b0b_0909_0707_0505_0303_0101u128
    } else if log_bits == 5 {
        0x0f0f_0f0f_0b0b_0b0b_0707_0707_0303_0303u128
    } else if log_bits == 6 {
        0x0f0f_0f0f_0f0f_0f0f_0707_0707_0707_0707u128
    } else {
        0x0f0f_0f0f_0f0f_0f0f_0f0f_0f0f_0f0f_0f0fu128
    }
}

proof fn lemma_even_mask_bytes()
    by (bit_vector)
    ensures
        forall|j: u128|
            j < 16 ==> #[trigger] lane(0x00ff_00ff_00ff_00ff_00ff_00ff_00ff_00ffu128, j) == if j
                & 1u128 == 0 {
                0xffu8
            } else {
                0u8
            },
        forall|j: u128|
            j < 16 ==> #[trigger] lane(0x0000_ffff_0000_ffff_0000_ffff_0000_ffffu128, j) == if j
                & 2u128 == 0 {
                0xffu8
            } else {
                0u8
            },
        forall|j: u128|
            j < 16 ==> #[trigger] lane(0x0000_0000_ffff_ffff_0000_0000_ffff_ffffu128, j) == if j
                & 4u128 == 0 {
                0xffu8
            } else {
                0u8
            },
        forall|j: u128|
            j < 16 ==> #[trigger] lane(0x0000_0000_0000_0000_ffff_ffff_ffff_ffffu128, j) == if j
                & 8u128 == 0 {
                0xffu8
            } else {
                0u8
            },
{
}

/// The mask of the even scalars: all ones on them, zero on the odd ones.
pub fn even_mask(log_bits: u32) -> (r: u128)
    requires
        3 <= log_bits <= 6,
    ensures
        forall|j: u128|
            j < 16 ==> #[trigger] lane(r, j) == if j & scalar_bytes(log_bits) == 0 {
                0xffu8
            } else {
                0u8
            },
{
    proof {
        lemma_even_mask_bytes();
    }
    if log_bits == 3 {
        0x00ff_00ff_00ff_00ff_00ff_00ff_00ff_00ffu128
    } else if log_bits == 4 {
        0x0000_ffff_0000_ffff_0000_ffff_0000_ffffu128
    } else if log_bits == 5 {
        0x0000_0000_ffff_ffff_0000_0000_ffff_ffffu128
    } else {
        0x0000_0000_0000_0000_ffff_ffff_ffff_ffffu128
    }
}

/// The 8-bit scalar's `alpha` in each basis: `0x10` in the binary tower
/// basis, `0xd3` in the AES basis.
pub open spec fn alpha_8b(aes_basis: bool) -> u8 {
    if aes_basis {
        0xd3
    } else {
        0x10
    }
}

proof fn lemma_alpha_bytes()
    by (bit_vector)
    ensures
        forall|j: u128|
            j < 16 ==> #[trigger] lane(0x1010_1010_1010_1010_1010_1010_1010_1010u128, j) == 0x10u8,
        forall|j: u128|
            j < 16 ==> #[trigger] lane(0xd3d3_d3d3_d3d3_d3d3_d3d3_d3d3_d3d3_d3d3u128, j) == 0xd3u8,
        forall|j: u128|
            j < 16 ==> #[trigger] lane(0x0100_0100_0100_0100_0100_0100_0100_0100u128, j) == if j
                & 1u128 == 1u128 {
                1u8
            } else {
                0u8
            },
        forall|j: u128|
            j < 16 ==> #[trigger] lane(0x0001_0000_0001_0000_0001_0000_0001_0000u128, j) == if j
                & 3u128 == 2u128 {
                1u8
            } else {
                0u8
            },
        forall|j: u128|
            j < 16 ==> #[trigger] lane(0x0000_0001_0000_0000_0000_0001_0000_0000u128, j) == if j
                & 7u128 == 4u128 {
                1u8
            } else {
                0u8
            },
{
}

/// `alpha` of the scalar, the generator of its top tower level, in every
/// scalar: for 16 bits and more, the lowest bit of each scalar's upper half.
pub fn alpha(log_bits: u32, aes_basis: bool) -> (r: u128)
    requires
        3 <= log_bits <= 6,
    ensures
        log_bits == 3 ==> forall|j: u128| j < 16 ==> #[trigger] lane(r, j) == alpha_8b(aes_basis),
        log_bits > 3 ==> forall|j: u128|
            j < 16 ==> #[trigger] lane(r, j) == if j & (scalar_bytes(log_bits) - 1) as u128 == (
            scalar_bytes(log_bits) / 2) {
                1u8
            } else {
                0u8
            },
{
    proof {
        lemma_alpha_bytes();
    }
    if log_bits == 3 {
        if aes_basis {
            0xd3d3_d3d3_d3d3_d3d3_d3d3_d3d3_d3d3_d3d3u128
        } else {
            0x1010_1010_1010_1010_1010_1010_1010_1010u128
        }
    } else if log_bits == 4 {
        0x0100_0100_0100_0100_0100_0100_0100_0100u128
    } else if log_bits == 5 {
        0x0001_0000_0001_0000_0001_0000_0001_0000u128
    } else {
        0x0000_0001_0000_0000_0000_0001_0000_0000u128
    }
}

/// A byte index built from `j < 16` by `^ s` or `& !s` selects itself in a
/// shuffle.
proof fn lemma_index_byte(j: u128, s: u128)
    by (bit_vector)
    requires
        j < 16,
        s < 16,
    ensures
        ((j ^ s) as u8) & 0x80 == 0,
        ((((j ^ s) as u8) & 0x0f) as u128) == j ^ s,
        ((j & !s) as u8) & 0x80 == 0,
        ((((j & !s) as u8) & 0x0f) as u128) == j & !s,
{
}

/// Swaps each even scalar with the odd one beside it.
pub fn flip_even_odd(val: u128, log_bits: u32) -> (r: u128)
    requires
        3 <= log_bits <= 6,
    ensures
        forall|j: u128|
            j < 16 ==> #[trigger] lane(r, j) == lane(val, j ^ scalar_bytes(log_bits)),
{
    let mask = flip_shuffle(log_bits);
    let r = shuffle_epi8(val, mask);
    assert forall|j: u128| j < 16 implies #[trigger] lane(r, j) == lane(
        val,
        j ^ scalar_bytes(log_bits),
    ) by {
        lemma_index_byte(j, scalar_bytes(log_bits));
        assert(lane(mask, j) == (j ^ scalar_bytes(log_bits)) as u8);
    }
    r
}

/// Copies each even scalar over the odd one beside it.
pub fn duplicate_odd(val: u128, log_bits: u32) -> (r: u128)
    requires
        3 <= log_bits <= 6,
    ensures
        forall|j: u128|
            j < 16 ==> #[trigger] lane(r, j) == lane(val, j & !scalar_bytes(log_bits)),
{
    let mask = dup_shuffle(log_bits);
    let r = shuffle_epi8(val, mask);
    assert forall|j: u128| j < 16 implies #[trigger] lane(r, j) == lane(
        val,
        j & !scalar_bytes(log_bits),
    ) by {
        lemma_index_byte(j, scalar_bytes(log_bits));
        assert(lane(mask, j) == (j & !scalar_bytes(log_bits)) as u8);
    }
    r
}

proof fn lemma_lane_select(a: u128, b: u128, m: u128, j: u128)
    by (bit_vector)
    requires
        j < 16,
        ((m >> ((8 * j) as u128)) & 0xff) as u8 == 0xff || ((m >> ((8 * j) as u128)) & 0xff) as u8
            == 0,
    ensures
        lane((a & !m) | (b & m), j) == if lane(m, j) == 0xff {
            lane(b, j)
        } else {
            lane(a, j)
        },
{
}

/// The odd scalars of `a` with the even scalars of `b`.
pub fn blend_odd_even(a: u128, b: u128, log_bits: u32) -> (r: u128)
    requires
        3 <= log_bits <= 6,
    ensures
        forall|j: u128|
            j < 16 ==> #[trigger] lane(r, j) == if j & scalar_bytes(log_bits) == 0 {
                lane(b, j)
            } else {
                lane(a, j)
            },
{
    let m = even_mask(log_bits);
    let r = (a & !m) | (b & m);
    assert forall|j: u128| j < 16 implies #[trigger] lane(r, j) == if j & scalar_bytes(log_bits)
        == 0 {
        lane(b, j)
    } else {
        lane(a, j)
    } by {
        assert(lane(m, j) == 0xff || lane(m, j) == 0);
        lemma_lane_select(a, b, m, j);
    }
    r
}

/// Bitwise sum of two packed words.
pub fn xor(a: u128, b: u128) -> (r: u128)
    ensures
        r == a ^ b,
{
    a ^ b
}

} // verus!
