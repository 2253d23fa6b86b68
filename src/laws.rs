use crate::ed25519::{field_prime, lemma_constants, Point};
use crate::prime_field::{is_prime, lemma_fermat};
use crate::finite_field::{
    field_add, field_div, field_exp, field_mul, field_neg, field_sub, FiniteField, U256FFE,
};
use vstd::arithmetic::div_mod::{
    lemma_add_mod_noop, lemma_mod_self_0, lemma_mul_mod_noop_general, lemma_small_mod,
};
use vstd::arithmetic::power::{lemma_pow1, lemma_pow_adds, pow};
use vstd::prelude::*;

verus! {

/// Adding zero leaves an element unchanged: `a + 0 = a`.
pub proof fn lemma_add_zero(a: U256FFE)
    requires
        a.well_formed(),
    ensures
        field_add(a.residue(), 0, a.modulus_value()) == a.residue(),
{
    lemma_small_mod(a.residue() as nat, a.modulus_value() as nat);
}

/// Multiplying by one leaves an element unchanged: `a * 1 = a`.
pub proof fn lemma_mul_one(a: U256FFE)
    requires
        a.well_formed(),
    ensures
        field_mul(a.residue(), 1int % a.modulus_value(), a.modulus_value()) == a.residue(),
{
    let p = a.modulus_value();
    lemma_mul_mod_noop_general(a.residue(), 1, p);
    lemma_small_mod(a.residue() as nat, p as nat);
}

/// An element minus itself is zero: `a - a = 0`.
pub proof fn lemma_sub_self(a: U256FFE)
    requires
        a.well_formed(),
    ensures
        field_sub(a.residue(), a.residue(), a.modulus_value()) == 0,
{
    lemma_small_mod(0, a.modulus_value() as nat);
}

/// Over a prime modulus a nonzero element divided by itself is one: `a / a = 1`.
pub proof fn lemma_div_self(a: U256FFE)
    requires
        a.well_formed(),
        is_prime(a.modulus_value()),
        a.residue() != 0,
    ensures
        field_div(a.residue(), a.residue(), a.modulus_value()) == 1,
{
    let p = a.modulus_value();
    let x = a.residue();
    lemma_pow1(x);
    lemma_pow_adds(x, 1, (p - 2) as nat);
    assert((1 + (p - 2)) as nat == (p - 1) as nat);
    lemma_fermat(x, p);
}

/// Over a prime modulus a nonzero element times its inverse is one: `a * (1 / a) = 1`.
pub proof fn lemma_mul_inverse(a: U256FFE)
    requires
        a.well_formed(),
        is_prime(a.modulus_value()),
        a.residue() != 0,
    ensures
        field_mul(
            a.residue(),
            field_div(1int % a.modulus_value(), a.residue(), a.modulus_value()),
            a.modulus_value(),
        ) == 1,
{
    let p = a.modulus_value();
    let x = a.residue();
    let e = pow(x, (p - 2) as nat);
    lemma_small_mod(1, p as nat);
    assert(1 * e == e);
    lemma_mul_mod_noop_general(x, e, p);
    lemma_div_self(a);
}

/// Raising to `p - 2` is the same as dividing one by the element: `a^(p - 2) = 1 / a`.
pub proof fn lemma_exp_is_inverse(a: U256FFE)
    requires
        a.well_formed(),
        a.modulus_value() > 2,
    ensures
        field_exp(a.residue(), (a.modulus_value() - 2) as nat, a.modulus_value()) == field_div(
            1int % a.modulus_value(),
            a.residue(),
            a.modulus_value(),
        ),
{
    let p = a.modulus_value();
    lemma_small_mod(1, p as nat);
}

/// Addition is commutative: `a + b = b + a`.
pub proof fn lemma_add_commutative(a: U256FFE, b: U256FFE)
    requires
        a.well_formed(),
        b.well_formed(),
        a.same_field(&b),
    ensures
        field_add(a.residue(), b.residue(), a.modulus_value()) == field_add(
            b.residue(),
            a.residue(),
            a.modulus_value(),
        ),
{
}

/// Addition is associative: `(a + b) + c = a + (b + c)`.
pub proof fn lemma_add_associative(a: U256FFE, b: U256FFE, c: U256FFE)
    requires
        a.well_formed(),
        b.well_formed(),
        c.well_formed(),
        a.same_field(&b),
        a.same_field(&c),
    ensures
        field_add(field_add(a.residue(), b.residue(), a.modulus_value()), c.residue(), a.modulus_value())
            == field_add(
            a.residue(),
            field_add(b.residue(), c.residue(), a.modulus_value()),
            a.modulus_value(),
        ),
{
    let p = a.modulus_value();
    let (x, y, z) = (a.residue(), b.residue(), c.residue());
    lemma_add_mod_noop(x + y, z, p);
    lemma_add_mod_noop(x, y + z, p);
    lemma_small_mod(x as nat, p as nat);
    lemma_small_mod(z as nat, p as nat);
    assert(x + y + z == x + (y + z));
}

/// Multiplication is commutative: `a * b = b * a`.
pub proof fn lemma_mul_commutative(a: U256FFE, b: U256FFE)
    requires
        a.well_formed(),
        b.well_formed(),
        a.same_field(&b),
    ensures
        field_mul(a.residue(), b.residue(), a.modulus_value()) == field_mul(
            b.residue(),
            a.residue(),
            a.modulus_value(),
        ),
{
    assert(a.residue() * b.residue() == b.residue() * a.residue()) by (nonlinear_arith);
}

/// Multiplication is associative: `(a * b) * c = a * (b * c)`.
pub proof fn lemma_mul_associative(a: U256FFE, b: U256FFE, c: U256FFE)
    requires
        a.well_formed(),
        b.well_formed(),
        c.well_formed(),
        a.same_field(&b),
        a.same_field(&c),
    ensures
        field_mul(field_mul(a.residue(), b.residue(), a.modulus_value()), c.residue(), a.modulus_value())
            == field_mul(
            a.residue(),
            field_mul(b.residue(), c.residue(), a.modulus_value()),
            a.modulus_value(),
        ),
{
    let p = a.modulus_value();
    let (x, y, z) = (a.residue(), b.residue(), c.residue());
    lemma_mul_mod_noop_general(x * y, z, p);
    lemma_mul_mod_noop_general(x, y * z, p);
    assert((x * y) * z == x * (y * z)) by (nonlinear_arith);
}

/// Negation is an involution: `-(-a) = a`.
pub proof fn lemma_neg_involution(a: U256FFE)
    requires
        a.well_formed(),
    ensures
        field_neg(field_neg(a.residue(), a.modulus_value()), a.modulus_value()) == a.residue(),
{
    let p = a.modulus_value();
    let x = a.residue();
    if x == 0 {
        lemma_mod_self_0(p);
        lemma_small_mod(0, p as nat);
    } else {
        lemma_small_mod((p - x) as nat, p as nat);
        lemma_small_mod(x as nat, p as nat);
    }
}

/// Negating the identity point gives the identity point: `-(0, 1) = (0, 1)`.
pub proof fn lemma_neg_identity(pt: Point)
    requires
        pt.well_formed(),
        pt.x_val() == 0,
        pt.y_val() == 1,
    ensures
        field_neg(pt.x_val(), field_prime()) == 0,
{
    lemma_constants();
    lemma_mod_self_0(field_prime());
}

} // verus!
