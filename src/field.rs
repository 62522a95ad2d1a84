//! Field capability consumed by the reduction engine, and a small binary
//! field that implements it.
use vstd::prelude::*;

verus! {

/// A finite field of characteristic two.
///
/// The spec functions give the algebra that contracts speak of; the exec
/// methods compute it. The proof functions are the ring laws every
/// implementation proves for its own representation.
pub trait Field: Sized + Copy {
    spec fn spec_zero() -> Self;

    spec fn spec_one() -> Self;

    spec fn spec_add(self, rhs: Self) -> Self;

    spec fn spec_mul(self, rhs: Self) -> Self;

    fn zero() -> (r: Self)
        ensures
            r == Self::spec_zero(),
    ;

    fn one() -> (r: Self)
        ensures
            r == Self::spec_one(),
    ;

    fn add(self, rhs: Self) -> (r: Self)
        ensures
            r == self.spec_add(rhs),
    ;

    fn mul(self, rhs: Self) -> (r: Self)
        ensures
            r == self.spec_mul(rhs),
    ;

    fn equals(&self, rhs: &Self) -> (r: bool)
        ensures
            r == (*self == *rhs),
    ;

    proof fn lemma_add_commutative(a: Self, b: Self)
        ensures
            a.spec_add(b) == b.spec_add(a),
    ;

    proof fn lemma_add_associative(a: Self, b: Self, c: Self)
        ensures
            a.spec_add(b).spec_add(c) == a.spec_add(b.spec_add(c)),
    ;

    proof fn lemma_add_zero(a: Self)
        ensures
            a.spec_add(Self::spec_zero()) == a,
    ;

    /// Characteristic two: every element is its own additive inverse.
    proof fn lemma_add_self(a: Self)
        ensures
            a.spec_add(a) == Self::spec_zero(),
    ;

    proof fn lemma_mul_commutative(a: Self, b: Self)
        ensures
            a.spec_mul(b) == b.spec_mul(a),
    ;

    proof fn lemma_mul_associative(a: Self, b: Self, c: Self)
        ensures
            a.spec_mul(b).spec_mul(c) == a.spec_mul(b.spec_mul(c)),
    ;

    proof fn lemma_mul_one(a: Self)
        ensures
            a.spec_mul(Self::spec_one()) == a,
    ;

    proof fn lemma_mul_zero(a: Self)
        ensures
            a.spec_mul(Self::spec_zero()) == Self::spec_zero(),
    ;

    proof fn lemma_distributive(a: Self, b: Self, c: Self)
        ensures
            a.spec_mul(b.spec_add(c)) == a.spec_mul(b).spec_add(a.spec_mul(c)),
    ;
}

/// The field with eight elements, GF(2)[x] / (x^3 + x + 1).
///
/// An element is `b0 + b1 x + b2 x^2`, one bit per coefficient, so every
/// value of the type is a field element.
#[derive(Clone, Copy, Debug, PartialEq, Eq, Structural)]
pub struct Gf8 {
    pub b0: bool,
    pub b1: bool,
    pub b2: bool,
}

pub open spec fn bit_of(b: bool) -> u8 {
    if b {
        1
    } else {
        0
    }
}

pub open spec fn xor(a: bool, b: bool) -> bool {
    a != b
}

impl Gf8 {
    /// The element as an integer in `0..8`, bit `i` holding the coefficient of `x^i`.
    pub open spec fn spec_value(self) -> u8 {
        (bit_of(self.b0) + 2 * bit_of(self.b1) + 4 * bit_of(self.b2)) as u8
    }

    /// The element whose coefficients are the low three bits of `v`.
    pub fn new(v: u8) -> (r: Gf8)
        ensures
            r.spec_value() == v % 8,
    {
        let r = Gf8 { b0: v & 1 == 1, b1: v & 2 == 2, b2: v & 4 == 4 };
        assert(v % 8 == (v & 1) + (v & 2) + (v & 4)) by (bit_vector);
        assert((v & 1 == 1) == (v & 1 != 0) && (v & 2 == 2) == (v & 2 != 0) && (v & 4 == 4) == (v
            & 4 != 0) && (v & 1 == 0 || v & 1 == 1) && (v & 2 == 0 || v & 2 == 2) && (v & 4 == 0 || v
            & 4 == 4)) by (bit_vector);
        r
    }

    pub fn value(&self) -> (r: u8)
        ensures
            r == self.spec_value(),
            r < 8,
    {
        let mut r: u8 = 0;
        if self.b0 {
            r = r + 1;
        }
        if self.b1 {
            r = r + 2;
        }
        if self.b2 {
            r = r + 4;
        }
        r
    }
}

impl Field for Gf8 {
    open spec fn spec_zero() -> Self {
        Gf8 { b0: false, b1: false, b2: false }
    }

    open spec fn spec_one() -> Self {
        Gf8 { b0: true, b1: false, b2: false }
    }

    open spec fn spec_add(self, rhs: Self) -> Self {
        Gf8 { b0: xor(self.b0, rhs.b0), b1: xor(self.b1, rhs.b1), b2: xor(self.b2, rhs.b2) }
    }

    /// Schoolbook product, with `x^3 = x + 1` and `x^4 = x^2 + x`.
    open spec fn spec_mul(self, rhs: Self) -> Self {
        let (a0, a1, a2) = (self.b0, self.b1, self.b2);
        let (c0, c1, c2) = (rhs.b0, rhs.b1, rhs.b2);
        let d3 = xor(a1 && c2, a2 && c1);
        let d4 = a2 && c2;
        Gf8 {
            b0: xor(a0 && c0, d3),
            b1: xor(xor(a0 && c1, a1 && c0), xor(d3, d4)),
            b2: xor(xor(a0 && c2, a1 && c1), xor(a2 && c0, d4)),
        }
    }

    fn zero() -> (r: Self) {
        Gf8 { b0: false, b1: false, b2: false }
    }

    fn one() -> (r: Self) {
        Gf8 { b0: true, b1: false, b2: false }
    }

    fn add(self, rhs: Self) -> (r: Self) {
        Gf8 { b0: self.b0 != rhs.b0, b1: self.b1 != rhs.b1, b2: self.b2 != rhs.b2 }
    }

    fn mul(self, rhs: Self) -> (r: Self) {
        let (a0, a1, a2) = (self.b0, self.b1, self.b2);
        let (c0, c1, c2) = (rhs.b0, rhs.b1, rhs.b2);
        let d3 = (a1 && c2) != (a2 && c1);
        let d4 = a2 && c2;
        Gf8 {
            b0: (a0 && c0) != d3,
            b1: ((a0 && c1) != (a1 && c0)) != (d3 != d4),
            b2: ((a0 && c2) != (a1 && c1)) != ((a2 && c0) != d4),
        }
    }

    fn equals(&self, rhs: &Self) -> (r: bool) {
        *self == *rhs
    }

    proof fn lemma_add_commutative(a: Self, b: Self) {
    }

    proof fn lemma_add_associative(a: Self, b: Self, c: Self) {
    }

    proof fn lemma_add_zero(a: Self) {
    }

    proof fn lemma_add_self(a: Self) {
    }

    proof fn lemma_mul_commutative(a: Self, b: Self) {
    }

    proof fn lemma_mul_associative(a: Self, b: Self, c: Self) {
    }

    proof fn lemma_mul_one(a: Self) {
    }

    proof fn lemma_mul_zero(a: Self) {
    }

    proof fn lemma_distributive(a: Self, b: Self, c: Self) {
    }
}

} // verus!
