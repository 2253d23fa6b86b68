use crate::limbs::{
    lemma_u256_bound, limbs_eq, u256_add, u256_bit, u256_from_u64, u256_full_mul, u256_is_zero, u256_leading_zeros,
    u256_lt, u256_rem, u256_sub, u256_val, u256_widen, u512_narrow, u512_rem, u512_val,
};
use vstd::arithmetic::div_mod::{
    lemma_add_mod_noop, lemma_div_denominator, lemma_fundamental_div_mod, lemma_mod_add_multiples_vanish,
    lemma_mod_bound, lemma_mul_mod_noop_general, lemma_small_mod,
};
use vstd::arithmetic::power::{lemma_pow0, lemma_pow1, lemma_pow_adds, pow};
use vstd::arithmetic::power2::{lemma2_to64, lemma_pow2_pos, pow2};
use vstd::prelude::*;

verus! {

/// `(a + b) mod p`
pub open spec fn field_add(a: int, b: int, p: int) -> int {
    (a + b) % p
}

/// `(a - b) mod p`
pub open spec fn field_sub(a: int, b: int, p: int) -> int {
    (a - b) % p
}

/// `(-a) mod p`
pub open spec fn field_neg(a: int, p: int) -> int {
    (p - a) % p
}

/// `(a * b) mod p`
pub open spec fn field_mul(a: int, b: int, p: int) -> int {
    (a * b) % p
}

/// `a^e mod p`
pub open spec fn field_exp(a: int, e: nat, p: int) -> int {
    pow(a, e) % p
}

/// `a * b^(p - 2) mod p`: division by the Fermat inverse of `b`.
pub open spec fn field_div(a: int, b: int, p: int) -> int {
    (a * pow(b, (p - 2) as nat)) % p
}

/// The ways in which a field operation can refuse its operands.
#[derive(Debug, Clone, Copy, PartialEq, Eq, Structural)]
pub enum FieldError {
    /// Division over a modulus of at most two.
    InvalidModulus,
    /// Division by zero.
    DivisionByZero,
    /// A multiplier that is no unsigned 256-bit value.
    RepresentationOverflow,
}

/// One step of a scan over the bits of `k` from the most significant one.
proof fn lemma_bit_step(k: nat, i: nat)
    ensures
        k / pow2(i) == 2 * (k / pow2(i + 1)) + (k / pow2(i)) % 2,
{
    lemma_pow2_pos(i);
    lemma2_to64();
    assert(pow2(i + 1) == pow2(i) * 2) by {
        vstd::arithmetic::power2::lemma_pow2_unfold(i + 1);
    }
    lemma_div_denominator(k as int, pow2(i) as int, 2);
    lemma_fundamental_div_mod((k / pow2(i)) as int, 2);
}

/// A value below `2^i` has no bits at or above `i`.
proof fn lemma_high_bits_zero(k: nat, i: nat)
    requires
        k < pow2(i),
    ensures
        k / pow2(i) == 0,
{
    lemma_pow2_pos(i);
    vstd::arithmetic::div_mod::lemma_basic_div(k as int, pow2(i) as int);
}

/// `(a + b) mod m` of two residues, without overflow for any modulus.
fn add_mod(a: &[u64; 4], b: &[u64; 4], m: &[u64; 4]) -> (r: [u64; 4])
    requires
        u256_val(*a) < u256_val(*m),
        u256_val(*b) < u256_val(*m),
    ensures
        u256_val(r) == field_add(u256_val(*a) as int, u256_val(*b) as int, u256_val(*m) as int),
{
    let t = u256_sub(m, b);
    proof {
        lemma_u256_bound(*m);
    }
    if u256_lt(a, &t) {
        let r = u256_add(a, b);
        proof {
            lemma_small_mod(u256_val(r), u256_val(*m));
        }
        r
    } else {
        let r = u256_sub(a, &t);
        proof {
            let x = u256_val(*a) as int + u256_val(*b) as int;
            let p = u256_val(*m) as int;
            lemma_small_mod((x - p) as nat, p as nat);
            lemma_mod_add_multiples_vanish(x - p, p);
        }
        r
    }
}

/// `(a - b) mod m` of two residues.
fn sub_mod(a: &[u64; 4], b: &[u64; 4], m: &[u64; 4]) -> (r: [u64; 4])
    requires
        u256_val(*a) < u256_val(*m),
        u256_val(*b) < u256_val(*m),
    ensures
        u256_val(r) == field_sub(u256_val(*a) as int, u256_val(*b) as int, u256_val(*m) as int),
{
    if u256_lt(a, b) {
        let t = u256_sub(m, b);
        proof {
            lemma_u256_bound(*m);
        }
        let r = u256_add(a, &t);
        proof {
            let x = u256_val(*a) as int - u256_val(*b) as int;
            let p = u256_val(*m) as int;
            lemma_small_mod((x + p) as nat, p as nat);
            lemma_mod_add_multiples_vanish(x, p);
        }
        r
    } else {
        let r = u256_sub(a, b);
        proof {
            lemma_small_mod(u256_val(r), u256_val(*m));
        }
        r
    }
}

/// `(a * b) mod m` through the full 512-bit product.
fn mul_mod(a: &[u64; 4], b: &[u64; 4], m: &[u64; 4]) -> (r: [u64; 4])
    requires
        u256_val(*m) > 0,
    ensures
        u256_val(r) == field_mul(u256_val(*a) as int, u256_val(*b) as int, u256_val(*m) as int),
        u256_val(r) < u256_val(*m),
{
    let product = u256_full_mul(a, b);
    let wide_m = u256_widen(m);
    let rem = u512_rem(&product, &wide_m);
    proof {
        lemma_mod_bound(u512_val(product) as int, u512_val(wide_m) as int);
        lemma_u256_bound(*m);
    }
    u512_narrow(&rem)
}

/// `(a * k) mod m` by doubling and adding over the bits of `k`, reducing after each step.
fn scale_mod(a: &[u64; 4], k: &[u64; 4], m: &[u64; 4]) -> (r: [u64; 4])
    requires
        u256_val(*a) < u256_val(*m),
    ensures
        u256_val(r) == field_mul(u256_val(*a) as int, u256_val(*k) as int, u256_val(*m) as int),
{
    let ghost av = u256_val(*a) as int;
    let ghost kv = u256_val(*k);
    let ghost p = u256_val(*m) as int;
    let lz = u256_leading_zeros(k);
    let mut i: usize = (256 - lz) as usize;
    let mut acc = u256_from_u64(0);
    proof {
        lemma_high_bits_zero(kv, i as nat);
        lemma_small_mod(0, p as nat);
    }
    while i > 0
        invariant
            i <= 256,
            u256_val(*a) < u256_val(*m),
            av == u256_val(*a),
            kv == u256_val(*k),
            p == u256_val(*m),
            u256_val(acc) < p,
            u256_val(acc) == (av * (kv / pow2(i as nat))) % p,
        decreases i,
    {
        i = i - 1;
        let ghost q = kv / pow2((i + 1) as nat);
        let ghost before = u256_val(acc) as int;
        acc = add_mod(&acc, &acc, m);
        let bit = u256_bit(k, i);
        proof {
            lemma_bit_step(kv, i as nat);
            lemma_add_mod_noop(av * q, av * q, p);
            lemma_small_mod(before as nat, p as nat);
            assert(av * q + av * q == av * (2 * q)) by (nonlinear_arith);
        }
        if bit {
            let ghost doubled = u256_val(acc) as int;
            acc = add_mod(&acc, a, m);
            proof {
                lemma_add_mod_noop(av * (2 * q), av, p);
                lemma_small_mod(av as nat, p as nat);
                lemma_small_mod(doubled as nat, p as nat);
                assert(av * (2 * q) + av == av * (2 * q + 1)) by (nonlinear_arith);
            }
        }
        proof {
            lemma_mod_bound(u256_val(acc) as int, p);
        }
    }
    proof {
        assert(pow2(0) == 1) by {
            lemma2_to64();
        }
        assert(kv / pow2(0) == kv);
    }
    acc
}

/// `a^k mod m` by squaring and multiplying over the bits of `k` from the most significant one.
fn exp_mod(a: &[u64; 4], k: &[u64; 4], m: &[u64; 4]) -> (r: [u64; 4])
    requires
        u256_val(*m) > 0,
    ensures
        u256_val(r) == field_exp(u256_val(*a) as int, u256_val(*k), u256_val(*m) as int),
        u256_val(r) < u256_val(*m),
{
    let ghost av = u256_val(*a) as int;
    let ghost kv = u256_val(*k);
    let ghost p = u256_val(*m) as int;
    let lz = u256_leading_zeros(k);
    let mut i: usize = (256 - lz) as usize;
    let one = u256_from_u64(1);
    let mut acc = u256_rem(&one, m);
    proof {
        lemma_high_bits_zero(kv, i as nat);
        lemma_pow0(av);
        lemma_mod_bound(1, p);
    }
    while i > 0
        invariant
            i <= 256,
            av == u256_val(*a),
            kv == u256_val(*k),
            p == u256_val(*m),
            p > 0,
            u256_val(acc) < p,
            u256_val(acc) == pow(av, kv / pow2(i as nat)) % p,
        decreases i,
    {
        i = i - 1;
        let ghost q = kv / pow2((i + 1) as nat);
        acc = mul_mod(&acc, &acc, m);
        let bit = u256_bit(k, i);
        proof {
            lemma_bit_step(kv, i as nat);
            lemma_mul_mod_noop_general(pow(av, q), pow(av, q), p);
            lemma_pow_adds(av, q, q);
        }
        if bit {
            acc = mul_mod(&acc, a, m);
            proof {
                lemma_mul_mod_noop_general(pow(av, 2 * q), av, p);
                lemma_pow_adds(av, 2 * q, 1);
                lemma_pow1(av);
            }
        }
    }
    proof {
        assert(pow2(0) == 1) by {
            lemma2_to64();
        }
        assert(kv / pow2(0) == kv);
    }
    acc
}

/// Arithmetic in the integers modulo `p`, which is a field where `p` is prime.
pub trait FiniteField: Sized {
    /// The modulus `p` of the element's field.
    spec fn modulus_value(&self) -> int;

    /// The element's residue.
    spec fn residue(&self) -> int;

    /// The modulus is positive and the residue lies in `[0, p)`.
    spec fn well_formed(&self) -> bool;

    /// Both elements carry one modulus.
    spec fn same_field(&self, other: &Self) -> bool;

    /// `(a + b) mod p`
    fn ffadd(&self, other: Self) -> (r: Self)
        requires
            self.well_formed(),
            other.well_formed(),
            self.same_field(&other),
        ensures
            r.well_formed(),
            r.same_field(self),
            r.residue() == field_add(self.residue(), other.residue(), self.modulus_value()),
    ;

    /// `(a - b) mod p`
    fn ffsub(&self, other: Self) -> (r: Self)
        requires
            self.well_formed(),
            other.well_formed(),
            self.same_field(&other),
        ensures
            r.well_formed(),
            r.same_field(self),
            r.residue() == field_sub(self.residue(), other.residue(), self.modulus_value()),
    ;

    /// `(a * b) mod p`
    fn ffmul(&self, other: Self) -> (r: Self)
        requires
            self.well_formed(),
            other.well_formed(),
            self.same_field(&other),
        ensures
            r.well_formed(),
            r.same_field(self),
            r.residue() == field_mul(self.residue(), other.residue(), self.modulus_value()),
    ;

    /// `a * b^(p - 2) mod p`; refused where `p <= 2` or `b` is zero.
    fn ffdiv(&self, other: Self) -> (r: Result<Self, FieldError>)
        requires
            self.well_formed(),
            other.well_formed(),
            self.same_field(&other),
        ensures
            self.modulus_value() <= 2 ==> r == Err::<Self, FieldError>(FieldError::InvalidModulus),
            self.modulus_value() > 2 && other.residue() == 0 ==> r == Err::<Self, FieldError>(
                FieldError::DivisionByZero,
            ),
            self.modulus_value() > 2 && other.residue() != 0 ==> (r matches Ok(q) && q.well_formed()
                && q.same_field(self) && q.residue() == field_div(
                self.residue(),
                other.residue(),
                self.modulus_value(),
            )),
    ;

    /// `(a * k) mod p` for a multiplier `k` that need not be below `p`.
    fn ffscale(&self, scalar: [u64; 4]) -> (r: Self)
        requires
            self.well_formed(),
        ensures
            r.well_formed(),
            r.same_field(self),
            r.residue() == field_mul(self.residue(), u256_val(scalar) as int, self.modulus_value()),
    ;

    /// `a^k mod p`
    fn ffexp(&self, scalar: [u64; 4]) -> (r: Self)
        requires
            self.well_formed(),
        ensures
            r.well_formed(),
            r.same_field(self),
            r.residue() == field_exp(self.residue(), u256_val(scalar), self.modulus_value()),
    ;
}

/// An element of the integers modulo a 256-bit modulus, held as a residue in `[0, modulus)`.
#[derive(Debug, Clone, Copy, Eq)]
pub struct U256FFE {
    pub value: [u64; 4],
    pub modulus: [u64; 4],
}

impl PartialEq for U256FFE {
    fn eq(&self, other: &U256FFE) -> (r: bool) {
        limbs_eq(&self.value, &other.value) && limbs_eq(&self.modulus, &other.modulus)
    }
}

impl vstd::std_specs::cmp::PartialEqSpecImpl for U256FFE {
    open spec fn obeys_eq_spec() -> bool {
        true
    }

    open spec fn eq_spec(&self, other: &U256FFE) -> bool {
        self.value == other.value && self.modulus == other.modulus
    }
}

impl U256FFE {
    /// The element `n mod modulus`.
    pub fn new(n: [u64; 4], modulus: [u64; 4]) -> (r: Self)
        requires
            u256_val(modulus) > 0,
        ensures
            r.well_formed(),
            r.modulus == modulus,
            r.residue() == u256_val(n) % u256_val(modulus),
    {
        let value = u256_rem(&n, &modulus);
        proof {
            lemma_mod_bound(u256_val(n) as int, u256_val(modulus) as int);
        }
        U256FFE { value, modulus }
    }

    /// The additive identity.
    pub fn zero(modulus: [u64; 4]) -> (r: Self)
        requires
            u256_val(modulus) > 0,
        ensures
            r.well_formed(),
            r.modulus == modulus,
            r.residue() == 0,
    {
        U256FFE::new(u256_from_u64(0), modulus)
    }

    /// The multiplicative identity, `1 mod modulus`.
    pub fn one(modulus: [u64; 4]) -> (r: Self)
        requires
            u256_val(modulus) > 0,
        ensures
            r.well_formed(),
            r.modulus == modulus,
            r.residue() == 1int % (u256_val(modulus) as int),
    {
        U256FFE::new(u256_from_u64(1), modulus)
    }

    /// `a^n mod p`
    pub fn exp(&self, n: [u64; 4]) -> (r: Self)
        requires
            self.well_formed(),
        ensures
            r.well_formed(),
            r.modulus == self.modulus,
            r.residue() == field_exp(self.residue(), u256_val(n), self.modulus_value()),
    {
        self.ffexp(n)
    }

    /// `(p - a) mod p`
    pub fn neg(&self) -> (r: Self)
        requires
            self.well_formed(),
        ensures
            r.well_formed(),
            r.modulus == self.modulus,
            r.residue() == field_neg(self.residue(), self.modulus_value()),
    {
        let value = sub_mod(&u256_from_u64(0), &self.value, &self.modulus);
        proof {
            let p = self.modulus_value();
            lemma_mod_bound(0 - self.residue(), p);
            lemma_mod_add_multiples_vanish(0 - self.residue(), p);
        }
        U256FFE { value, modulus: self.modulus }
    }

    /// `(a * k) mod p` for an integer `k`, refused where `k` is negative.
    pub fn mul_int(&self, k: i32) -> (r: Result<Self, FieldError>)
        requires
            self.well_formed(),
        ensures
            k < 0 ==> r == Err::<Self, FieldError>(FieldError::RepresentationOverflow),
            k >= 0 ==> (r matches Ok(q) && q.well_formed() && q.modulus == self.modulus
                && q.residue() == field_mul(self.residue(), k as int, self.modulus_value())),
    {
        if k < 0 {
            return Err(FieldError::RepresentationOverflow);
        }
        Ok(self.ffscale(u256_from_u64(k as u64)))
    }
}

impl FiniteField for U256FFE {
    open spec fn modulus_value(&self) -> int {
        u256_val(self.modulus) as int
    }

    open spec fn residue(&self) -> int {
        u256_val(self.value) as int
    }

    open spec fn well_formed(&self) -> bool {
        0 < u256_val(self.modulus) && u256_val(self.value) < u256_val(self.modulus)
    }

    open spec fn same_field(&self, other: &Self) -> bool {
        self.modulus == other.modulus
    }

    fn ffadd(&self, other: Self) -> (r: Self) {
        U256FFE { value: add_mod(&self.value, &other.value, &self.modulus), modulus: self.modulus }
    }

    fn ffsub(&self, other: Self) -> (r: Self) {
        let value = sub_mod(&self.value, &other.value, &self.modulus);
        proof {
            lemma_mod_bound(self.residue() - other.residue(), self.modulus_value());
        }
        U256FFE { value, modulus: self.modulus }
    }

    fn ffmul(&self, other: Self) -> (r: Self) {
        let value = scale_mod(&self.value, &other.value, &self.modulus);
        proof {
            lemma_mod_bound(self.residue() * other.residue(), self.modulus_value());
        }
        U256FFE { value, modulus: self.modulus }
    }

    fn ffdiv(&self, other: Self) -> (r: Result<Self, FieldError>) {
        let three = u256_from_u64(3);
        if u256_lt(&self.modulus, &three) {
            return Err(FieldError::InvalidModulus);
        }
        if u256_is_zero(&other.value) {
            return Err(FieldError::DivisionByZero);
        }
        let two = u256_from_u64(2);
        let exponent = u256_sub(&self.modulus, &two);
        let inverse = other.ffexp(exponent);
        let q = self.ffmul(inverse);
        proof {
            let p = self.modulus_value();
            lemma_mul_mod_noop_general(self.residue(), pow(other.residue(), (p - 2) as nat), p);
        }
        Ok(q)
    }

    fn ffscale(&self, scalar: [u64; 4]) -> (r: Self) {
        let value = scale_mod(&self.value, &scalar, &self.modulus);
        proof {
            lemma_mod_bound(self.residue() * u256_val(scalar), self.modulus_value());
        }
        U256FFE { value, modulus: self.modulus }
    }

    fn ffexp(&self, scalar: [u64; 4]) -> (r: Self) {
        U256FFE { value: exp_mod(&self.value, &scalar, &self.modulus), modulus: self.modulus }
    }
}

} // verus!
