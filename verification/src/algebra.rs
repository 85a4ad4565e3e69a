use vstd::prelude::*;
use rand::Rng;

verus! {

#[verifier::external_type_specification]
#[verifier::external_body]
pub struct ExFr(rabe_bn::Fr);

#[verifier::external_type_specification]
#[verifier::external_body]
pub struct ExGt(rabe_bn::Gt);

/// Relies on `rand::thread_rng` and `Rng::gen` with `rabe_bn`'s
/// `Distribution<Fr>` impl: a random scalar. Nothing is promised of the
/// value.
#[verifier::external_body]
pub fn fr_rand() -> rabe_bn::Fr {
    rand::thread_rng().gen()
}

/// Relies on `rand::thread_rng` and `Rng::gen` with `rabe_bn`'s
/// `Distribution<Gt>` impl: a random group element.
#[verifier::external_body]
pub fn gt_rand() -> rabe_bn::Gt {
    rand::thread_rng().gen()
}

/// Relies on `rabe_bn::Fr::zero`: the field's additive identity.
#[verifier::external_body]
pub fn fr_zero() -> rabe_bn::Fr {
    rabe_bn::Fr::zero()
}

/// Relies on `rabe_bn::Fr::one`: the field's multiplicative identity.
#[verifier::external_body]
pub fn fr_one() -> rabe_bn::Fr {
    rabe_bn::Fr::one()
}

/// Relies on `rabe_bn::Fr::from_str`: the scalar with the given decimal
/// value, reduced into the field. `from_str` refuses only non-digit
/// characters, and the decimal form of a `u64` has none, so a scalar always
/// comes back.
#[verifier::external_body]
pub fn fr_from_u64(x: u64) -> (r: Option<rabe_bn::Fr>)
    ensures
        r is Some,
{
    rabe_bn::Fr::from_str(&format!("{}", x))
}

/// Relies on `Add for rabe_bn::Fr`: field addition.
#[verifier::external_body]
pub fn fr_add(a: rabe_bn::Fr, b: rabe_bn::Fr) -> rabe_bn::Fr {
    a + b
}

/// Relies on `Sub for rabe_bn::Fr`: field subtraction.
#[verifier::external_body]
pub fn fr_sub(a: rabe_bn::Fr, b: rabe_bn::Fr) -> rabe_bn::Fr {
    a - b
}

/// Relies on `Mul for rabe_bn::Fr`: field multiplication.
#[verifier::external_body]
pub fn fr_mul(a: rabe_bn::Fr, b: rabe_bn::Fr) -> rabe_bn::Fr {
    a * b
}

/// Relies on `rabe_bn::Fr::inverse`: the multiplicative inverse, absent
/// exactly for zero.
#[verifier::external_body]
pub fn fr_inverse(a: &rabe_bn::Fr) -> Option<rabe_bn::Fr> {
    a.inverse()
}

/// Relies on `rabe_bn::Gt::one`: the group's identity element.
#[verifier::external_body]
pub fn gt_one() -> rabe_bn::Gt {
    rabe_bn::Gt::one()
}

/// Relies on `rabe_bn::Gt::pow`: exponentiation of a group element by a
/// scalar.
#[verifier::external_body]
pub fn gt_pow(g: &rabe_bn::Gt, e: rabe_bn::Fr) -> rabe_bn::Gt {
    g.pow(e)
}

/// Relies on `Mul for rabe_bn::Gt`: the group operation.
#[verifier::external_body]
pub fn gt_mul(a: rabe_bn::Gt, b: rabe_bn::Gt) -> rabe_bn::Gt {
    a * b
}

/// Relies on `rabe_bn::Gt::into_bytes`: the canonical byte encoding of a
/// group element, a pure function of the element.
#[verifier::external_body]
pub fn gt_to_bytes(g: &rabe_bn::Gt) -> Vec<u8> {
    g.into_bytes()
}

} // verus!
