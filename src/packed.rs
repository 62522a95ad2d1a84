//! Linear transformations of 8-bit binary field elements applied to sixteen
//! of them at once, packed in one 128-bit word.
use vstd::prelude::*;

verus! {

/// Bit 7 of every lane.
pub const HIGH_BITS: u128 = 0x8080_8080_8080_8080_8080_8080_8080_8080u128;

/// Bit 0 of every lane.
pub const LOW_BITS: u128 = 0x0101_0101_0101_0101_0101_0101_0101_0101u128;

/// Lane `i` of a packed word: bits `8i .. 8i + 8`.
pub open spec fn lane(x: u128, i: u128) -> u8 {
    ((x >> ((8 * i) as u128)) & 0xff) as u8
}

/// The base selected by bit `k` of `x`: `bases[k]` when the bit is set, else zero.
pub open spec fn selected(bases: Seq<u8>, x: u8, k: int) -> u8 {
    if (x >> (k as u8)) & 1 == 1 {
        bases[k]
    } else {
        0
    }
}

/// The sum (XOR) of the bases `bases[k]`, `s <= k < 8`, whose bit `k` is set in `x`.
pub open spec fn combination_from(bases: Seq<u8>, x: u8, s: int) -> u8
    decreases 8 - s,
{
    if s >= 8 {
        0
    } else {
        selected(bases, x, s) ^ combination_from(bases, x, s + 1)
    }
}

/// The image of `x` under the linear map sending basis element `k` to `bases[k]`.
pub open spec fn transform_scalar(bases: Seq<u8>, x: u8) -> u8 {
    combination_from(bases, x, 0)
}

/// A linear transformation of 8-bit binary field elements, given by the
/// images of the eight basis elements.
pub struct FieldAffineTransformation {
    pub bases: Vec<u8>,
}

/// The transformation prepared for packed words: every base broadcast to all
/// lanes, and the mask of each lane's highest bit.
pub struct SimdTransformation {
    bases: Vec<u128>,
    ones: u128,
}

proof fn lemma_lane_broadcast(b: u8, i: u128)
    requires
        i < 16,
    ensures
        lane(((b as u128) * LOW_BITS) as u128, i) == b,
{
    assert((((((b as u128) * 0x0101_0101_0101_0101_0101_0101_0101_0101u128) as u128) >> ((8 * i)
        as u128)) & 0xff) as u8 == b) by (bit_vector)
        requires
            i < 16,
    ;
}

/// Each lane's highest bit copied to all eight bits of the lane.
pub open spec fn spread_high_bits(h: u128) -> u128 {
    let s1 = h | (h >> 1u128);
    let s2 = s1 | (s1 >> 2u128);
    s2 | (s2 >> 4u128)
}

/// Lanes of `b` kept where bit `7 - t` of the same lane of `x` is set, after
/// shifting `x` left by `t` and masking the lanes' highest bits.
proof fn lemma_lane_masked_base(x: u128, t: u128, i: u128, b: u128)
    requires
        t < 8,
        i < 16,
    ensures
        lane(spread_high_bits(((x << t) & HIGH_BITS)) & b, i) == if (lane(x, i) >> ((7 - t) as u8))
            & 1 == 1 {
            lane(b, i)
        } else {
            0
        },
{
    assert(((((((((x << t) & 0x8080_8080_8080_8080_8080_8080_8080_8080u128) | (((x << t)
        & 0x8080_8080_8080_8080_8080_8080_8080_8080u128) >> 1u128)) | ((((x << t)
        & 0x8080_8080_8080_8080_8080_8080_8080_8080u128) | (((x << t)
        & 0x8080_8080_8080_8080_8080_8080_8080_8080u128) >> 1u128)) >> 2u128)) | (((((x << t)
        & 0x8080_8080_8080_8080_8080_8080_8080_8080u128) | (((x << t)
        & 0x8080_8080_8080_8080_8080_8080_8080_8080u128) >> 1u128)) | ((((x << t)
        & 0x8080_8080_8080_8080_8080_8080_8080_8080u128) | (((x << t)
        & 0x8080_8080_8080_8080_8080_8080_8080_8080u128) >> 1u128)) >> 2u128)) >> 4u128)) & b) >> ((8
        * i) as u128)) & 0xff) as u8 == if (((((x >> ((8 * i) as u128)) & 0xff) as u8) >> ((7 - t)
        as u8)) & 1) == 1 {
        ((b >> ((8 * i) as u128)) & 0xff) as u8
    } else {
        0
    }) by (bit_vector)
        requires
            t < 8,
            i < 16,
    ;
}

proof fn lemma_lane_xor(a: u128, b: u128, i: u128)
    requires
        i < 16,
    ensures
        lane(a ^ b, i) == lane(a, i) ^ lane(b, i),
{
    assert((((a ^ b) >> ((8 * i) as u128)) & 0xff) as u8 == (((a >> ((8 * i) as u128)) & 0xff) as u8)
        ^ (((b >> ((8 * i) as u128)) & 0xff) as u8)) by (bit_vector)
        requires
            i < 16,
    ;
}

proof fn lemma_shift_step(x: u128, t: u128)
    requires
        t < 8,
    ensures
        (x << t) << 1u128 == x << ((t + 1) as u128),
{
    assert((x << t) << 1u128 == x << ((t + 1) as u128)) by (bit_vector)
        requires
            t < 8,
    ;
}

proof fn lemma_xor_commutative(a: u8, b: u8)
    ensures
        a ^ b == b ^ a,
{
    assert(a ^ b == b ^ a) by (bit_vector);
}

/// The lanes of `a` kept where the highest bit of the same lane of `mask` is set.
fn apply_mask(mask: u128, a: u128) -> (r: u128)
    ensures
        r == spread_high_bits(mask) & a,
{
    let s1 = mask | (mask >> 1u128);
    let s2 = s1 | (s1 >> 2u128);
    (s2 | (s2 >> 4u128)) & a
}

impl SimdTransformation {
    pub closed spec fn spec_bases(&self) -> Seq<u128> {
        self.bases@
    }

    pub closed spec fn spec_ones(&self) -> u128 {
        self.ones
    }

    /// Well-formed: eight bases, each the same byte in every lane, and the
    /// mask of lane high bits.
    pub open spec fn wf(&self) -> bool {
        &&& self.spec_bases().len() == 8
        &&& self.spec_ones() == HIGH_BITS
        &&& forall|k: int, i: u128|
            0 <= k < 8 && i < 16 ==> #[trigger] lane(self.spec_bases()[k], i) == lane(
                self.spec_bases()[k],
                0,
            )
    }

    /// The byte base `k` stands for.
    pub open spec fn base(&self, k: int) -> u8 {
        lane(self.spec_bases()[k], 0)
    }

    pub fn new(transformation: FieldAffineTransformation) -> (r: SimdTransformation)
        requires
            transformation.bases@.len() == 8,
        ensures
            r.wf(),
            forall|k: int| 0 <= k < 8 ==> r.base(k) == transformation.bases@[k],
    {
        let mut bases: Vec<u128> = Vec::new();
        let mut k: usize = 0;
        while k < transformation.bases.len()
            invariant
                transformation.bases@.len() == 8,
                k <= 8,
                bases@.len() == k,
                forall|m: int, i: u128|
                    0 <= m < k && i < 16 ==> #[trigger] lane(bases@[m], i)
                        == transformation.bases@[m],
            decreases 8 - k,
        {
            let b = transformation.bases[k];
            let packed = (b as u128) * LOW_BITS;
            proof {
                assert forall|i: u128| i < 16 implies lane(packed, i) == b by {
                    lemma_lane_broadcast(b, i);
                }
            }
            bases.push(packed);
            k = k + 1;
        }
        let r = SimdTransformation { bases, ones: HIGH_BITS };
        assert forall|k: int, i: u128| 0 <= k < 8 && i < 16 implies #[trigger] lane(
            r.spec_bases()[k],
            i,
        ) == lane(r.spec_bases()[k], 0) by {
            assert(lane(r.bases@[k], 0) == transformation.bases@[k]);
        }
        r
    }
}

impl SimdTransformation {
    /// The eight bytes the bases stand for.
    pub open spec fn spec_scalar_bases(&self) -> Seq<u8> {
        Seq::new(8, |k: int| self.base(k))
    }

    /// Applies the transformation to every lane of `input`.
    pub fn transform(&self, input: u128) -> (r: u128)
        requires
            self.wf(),
        ensures
            forall|i: u128|
                i < 16 ==> #[trigger] lane(r, i) == transform_scalar(
                    self.spec_scalar_bases(),
                    lane(input, i),
                ),
    {
        let ghost bases = self.spec_scalar_bases();
        let mut result: u128 = 0;
        let mut cur: u128 = input;
        let mut t: usize = 0;
        proof {
            assert(input << 0u128 == input) by (bit_vector);
            assert forall|i: u128| i < 16 implies #[trigger] lane(result, i) == combination_from(
                bases,
                lane(input, i),
                8,
            ) by {
                assert(((0u128 >> ((8 * i) as u128)) & 0xff) as u8 == 0) by (bit_vector);
            }
        }
        while t < 8
            invariant
                self.wf(),
                bases == self.spec_scalar_bases(),
                t <= 8,
                cur == input << (t as u128),
                forall|i: u128|
                    i < 16 ==> #[trigger] lane(result, i) == combination_from(
                        bases,
                        lane(input, i),
                        8 - t,
                    ),
            decreases 8 - t,
        {
            let k = 7 - t;
            let mask = cur & self.ones;
            let component = apply_mask(mask, self.bases[k]);
            proof {
                assert forall|i: u128| i < 16 implies #[trigger] lane(result ^ component, i)
                    == combination_from(bases, lane(input, i), k as int) by {
                    lemma_lane_xor(result, component, i);
                    lemma_lane_masked_base(input, t as u128, i, self.bases@[k as int]);
                    assert(lane(self.spec_bases()[k as int], i) == self.base(k as int));
                    lemma_xor_commutative(
                        lane(result, i),
                        selected(bases, lane(input, i), k as int),
                    );
                }
                lemma_shift_step(input, t as u128);
            }
            result = result ^ component;
            cur = cur << 1u128;
            t = t + 1;
        }
        result
    }
}

} // verus!
