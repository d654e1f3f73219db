use starseed_nn::activation::{gate, relu};
use starseed_nn::scalar::Scalar;

fn s(x: f32) -> Scalar {
    Scalar::from_bits(x.to_bits())
}

fn n(x: Scalar) -> f32 {
    f32::from_bits(x.to_bits())
}

#[test]
fn relu_keeps_what_is_above_zero() {
    assert_eq!(relu(s(2.5)).to_bits(), 2.5f32.to_bits());
    assert_eq!(relu(s(1e-45)).to_bits(), 1e-45f32.to_bits());
    assert_eq!(relu(s(f32::INFINITY)).to_bits(), f32::INFINITY.to_bits());
}

#[test]
fn relu_is_positive_zero_otherwise() {
    for x in [0.0f32, -0.0, -1.0, -1e-45, f32::NEG_INFINITY, f32::NAN, -f32::NAN] {
        assert_eq!(relu(s(x)).to_bits(), 0, "relu({x})");
    }
}

#[test]
fn relu_agrees_with_max_zero() {
    for x in [3.0f32, 0.1, 0.0, -0.0, -7.5, f32::MAX, f32::MIN, f32::NAN, 1e-30, -1e-30] {
        assert_eq!(n(relu(s(x))), x.max(0.0), "relu({x})");
    }
}

#[test]
fn gate_blocks_a_unit_at_or_below_zero() {
    for h in [0.0f32, -0.0, -3.0, f32::NEG_INFINITY] {
        assert_eq!(gate(s(0.75), s(h)).to_bits(), 0, "activation {h}");
    }
}

#[test]
fn gate_passes_an_active_unit() {
    assert_eq!(gate(s(0.75), s(0.5)).to_bits(), 0.75f32.to_bits());
    assert_eq!(gate(s(-2.0), s(1e-45)).to_bits(), (-2.0f32).to_bits());
    assert_eq!(gate(s(f32::NAN), s(1.0)).to_bits(), f32::NAN.to_bits());
}

#[test]
fn gate_follows_the_comparison_on_a_nan_activation() {
    // `h <= 0.0` is false of a NaN, so the gradient stays.
    assert_eq!(gate(s(0.75), s(f32::NAN)).to_bits(), 0.75f32.to_bits());
}

#[test]
fn inactive_unit_contributes_exactly_zero() {
    // Pre-activations at most zero: the gradient that comes back is +0.0,
    // so the updates of the unit's bias and weights are products with zero.
    for pre in [-4.0f32, -0.0, 0.0, -1e-20] {
        let h = relu(s(pre));
        let dh = gate(s(123.456), h);
        assert_eq!(dh.to_bits(), 0);
        let db1 = 0.0f32 + n(dh);
        let dw1 = 0.0f32 + n(dh) * 0.37;
        assert_eq!(db1, 0.0);
        assert_eq!(dw1, 0.0);
    }
}
