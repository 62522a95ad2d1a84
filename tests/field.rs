use binius_core::field::{Field, Gf8};

fn g(v: u8) -> Gf8 {
    Gf8::new(v)
}

#[test]
fn new_keeps_low_three_bits() {
    assert_eq!(g(9).value(), 1);
    assert_eq!(g(7).value(), 7);
    assert_eq!(g(0xf8).value(), 0);
}

#[test]
fn addition_is_xor() {
    assert_eq!(g(5).add(g(3)).value(), 6);
    assert_eq!(g(6).add(g(6)).value(), 0);
    assert_eq!(g(4).add(Gf8::zero()).value(), 4);
}

#[test]
fn multiplication_reduces_modulo_x3_x_1() {
    // x * x = x^2
    assert_eq!(g(2).mul(g(2)).value(), 4);
    // x * x^2 = x^3 = x + 1
    assert_eq!(g(2).mul(g(4)).value(), 3);
    // x^2 * x^2 = x^4 = x^2 + x
    assert_eq!(g(4).mul(g(4)).value(), 6);
    // (x + 1)(x^2 + 1) = x^3 + x^2 + x + 1 = x^2
    assert_eq!(g(3).mul(g(5)).value(), 4);
    // (x^2 + x + 1)^2 = x^4 + x^2 + 1 = x + 1
    assert_eq!(g(7).mul(g(7)).value(), 3);
    assert_eq!(g(6).mul(Gf8::one()).value(), 6);
    assert_eq!(g(6).mul(Gf8::zero()).value(), 0);
}

#[test]
fn every_nonzero_element_has_an_inverse() {
    for a in 1..8u8 {
        let found = (1..8u8).any(|b| g(a).mul(g(b)).value() == 1);
        assert!(found, "no inverse for {}", a);
    }
}

#[test]
fn equals_compares_elements() {
    assert!(g(3).equals(&g(11)));
    assert!(!g(3).equals(&g(4)));
}
