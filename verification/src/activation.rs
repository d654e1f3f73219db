//! The rectifier of the hidden layer, forwards and backwards.

use crate::scalar::Scalar;
use vstd::prelude::*;

verus! {

/// The rectified value of a pre-activation: the number itself where it is
/// greater than zero, and positive zero otherwise, also for a NaN.
pub open spec fn spec_relu(pre: Scalar) -> Scalar {
    if pre.spec_gt(Scalar::spec_zero()) {
        pre
    } else {
        Scalar::spec_zero()
    }
}

/// The gradient that a hidden unit lets through: positive zero where the
/// unit's activation is at most zero, and the gradient as it came otherwise.
pub open spec fn spec_gate(gradient: Scalar, activation: Scalar) -> Scalar {
    if activation.spec_le(Scalar::spec_zero()) {
        Scalar::spec_zero()
    } else {
        gradient
    }
}

/// The activation of a hidden unit with the given pre-activation.
#[verifier::when_used_as_spec(spec_relu)]
pub fn relu(pre: Scalar) -> (r: Scalar)
    ensures
        r == spec_relu(pre),
{
    if pre.gt(Scalar::zero()) {
        pre
    } else {
        Scalar::zero()
    }
}

/// The gradient of the loss with respect to a hidden unit's pre-activation,
/// from the gradient with respect to its activation: a unit that is not
/// active, an exact tie at zero included, passes nothing back.
#[verifier::when_used_as_spec(spec_gate)]
pub fn gate(gradient: Scalar, activation: Scalar) -> (r: Scalar)
    ensures
        r == spec_gate(gradient, activation),
{
    if activation.le(Scalar::zero()) {
        Scalar::zero()
    } else {
        gradient
    }
}

/// A hidden unit whose pre-activation is not greater than zero (it is at
/// most zero, or a NaN) hands back a gradient of exactly zero, whatever
/// gradient reaches it.
pub proof fn lemma_inactive_unit_blocks(pre: Scalar, gradient: Scalar)
    requires
        !pre.spec_gt(Scalar::spec_zero()),
    ensures
        spec_relu(pre) == Scalar::spec_zero(),
        spec_gate(gradient, spec_relu(pre)) == Scalar::spec_zero(),
{
}

/// A hidden unit whose pre-activation is greater than zero hands the
/// gradient back unchanged.
pub proof fn lemma_active_unit_passes(pre: Scalar, gradient: Scalar)
    requires
        pre.spec_gt(Scalar::spec_zero()),
    ensures
        spec_relu(pre) == pre,
        spec_gate(gradient, spec_relu(pre)) == gradient,
{
}

/// An activation is never negative and never a NaN, so a unit blocks the
/// gradient exactly where its activation is a zero.
pub proof fn lemma_relu_range(pre: Scalar)
    ensures
        spec_relu(pre).spec_ge(Scalar::spec_zero()),
        spec_relu(pre).spec_le(Scalar::spec_zero()) <==> spec_relu(pre) == Scalar::spec_zero(),
{
}

} // verus!
