use primitive_types::{U256, U512};
use vstd::arithmetic::power2::{lemma2_to64, lemma_pow2_adds, lemma_pow2_pos, pow2};
use vstd::prelude::*;

verus! {

/// The integer held by a little-endian sequence of 64-bit limbs.
pub open spec fn limbs_value(s: Seq<u64>) -> nat
    decreases s.len(),
{
    if s.len() == 0 {
        0
    } else {
        s[0] as nat + pow2(64) * limbs_value(s.drop_first())
    }
}

/// The integer held by four limbs: a 256-bit unsigned value.
pub open spec fn u256_val(a: [u64; 4]) -> nat {
    limbs_value(a@)
}

/// The integer held by eight limbs: a 512-bit unsigned value.
pub open spec fn u512_val(a: [u64; 8]) -> nat {
    limbs_value(a@)
}

/// `n` limbs hold less than `2^(64 n)`.
pub proof fn lemma_limbs_bound(s: Seq<u64>)
    ensures
        limbs_value(s) < pow2((64 * s.len()) as nat),
    decreases s.len(),
{
    if s.len() == 0 {
        lemma_pow2_pos(0);
        assert(pow2(0) == 1) by {
            lemma2_to64();
        }
    } else {
        let rest = s.drop_first();
        lemma_limbs_bound(rest);
        lemma2_to64();
        lemma_pow2_adds(64, (64 * rest.len()) as nat);
        let w = pow2(64) as int;
        let r = limbs_value(rest) as int;
        let b = pow2((64 * rest.len()) as nat) as int;
        assert(s[0] < w);
        assert(r <= b - 1);
        assert(w * r <= w * (b - 1)) by (nonlinear_arith)
            requires
                r <= b - 1,
                w > 0,
        ;
        assert(w * (b - 1) == w * b - w) by (nonlinear_arith);
        assert((64 * rest.len()) as nat + 64 == (64 * s.len()) as nat);
    }
}

/// Appending limbs adds their value shifted past the limbs before them.
pub proof fn lemma_limbs_concat(a: Seq<u64>, b: Seq<u64>)
    ensures
        limbs_value(a + b) == limbs_value(a) + pow2((64 * a.len()) as nat) * limbs_value(b),
    decreases a.len(),
{
    if a.len() == 0 {
        assert(a + b =~= b);
        assert(pow2(0) == 1) by {
            lemma2_to64();
        }
    } else {
        let rest = a.drop_first();
        assert((a + b).drop_first() =~= rest + b);
        lemma_limbs_concat(rest, b);
        lemma_pow2_adds(64, (64 * rest.len()) as nat);
        assert((64 * rest.len()) as nat + 64 == (64 * a.len()) as nat);
        let w = pow2(64) as int;
        let p = pow2((64 * rest.len()) as nat) as int;
        let vr = limbs_value(rest) as int;
        let vb = limbs_value(b) as int;
        assert(w * (vr + p * vb) == w * vr + (w * p) * vb) by (nonlinear_arith);
    }
}

/// The value of four limbs written out.
pub proof fn lemma_u256_unfold(a: [u64; 4])
    ensures
        u256_val(a) == a[0] as nat + pow2(64) * (a[1] as nat + pow2(64) * (a[2] as nat + pow2(64)
            * (a[3] as nat))),
{
    let s = a@;
    let s1 = s.drop_first();
    let s2 = s1.drop_first();
    let s3 = s2.drop_first();
    let s4 = s3.drop_first();
    assert(s4.len() == 0);
    assert(limbs_value(s4) == 0);
    assert(limbs_value(s3) == s3[0] as nat + pow2(64) * limbs_value(s4));
    assert(limbs_value(s2) == s2[0] as nat + pow2(64) * limbs_value(s3));
    assert(limbs_value(s1) == s1[0] as nat + pow2(64) * limbs_value(s2));
    assert(limbs_value(s) == s[0] as nat + pow2(64) * limbs_value(s1));
}

/// Four limbs hold less than `2^256`.
pub proof fn lemma_u256_bound(a: [u64; 4])
    ensures
        u256_val(a) < pow2(256),
{
    lemma_limbs_bound(a@);
}

/// Whether four limbs hold zero.
pub fn u256_is_zero(a: &[u64; 4]) -> (r: bool)
    ensures
        r == (u256_val(*a) == 0),
{
    proof {
        lemma_u256_unfold(*a);
        lemma2_to64();
        let w = pow2(64) as int;
        let x3 = a[3] as int;
        let x2 = a[2] as int + w * x3;
        let x1 = a[1] as int + w * x2;
        assert(w * x3 >= 0 && w * x2 >= 0 && w * x1 >= 0) by (nonlinear_arith)
            requires
                w > 0,
                x3 >= 0,
                x2 == a[2] as int + w * x3,
                x1 == a[1] as int + w * x2,
                a[1] as int >= 0,
                a[2] as int >= 0,
        ;
        assert(w * x1 == 0 ==> x1 == 0) by (nonlinear_arith)
            requires
                w > 0,
        ;
        assert(w * x2 == 0 ==> x2 == 0) by (nonlinear_arith)
            requires
                w > 0,
        ;
        assert(w * x3 == 0 ==> x3 == 0) by (nonlinear_arith)
            requires
                w > 0,
        ;
    }
    a[0] == 0 && a[1] == 0 && a[2] == 0 && a[3] == 0
}

/// Whether two sets of four limbs are the same.
pub fn limbs_eq(a: &[u64; 4], b: &[u64; 4]) -> (r: bool)
    ensures
        r == (*a == *b),
{
    let r = a[0] == b[0] && a[1] == b[1] && a[2] == b[2] && a[3] == b[3];
    proof {
        if r {
            assert(a@ =~= b@);
            vstd::array::axiom_array_ext_equal(*a, *b);
        }
    }
    r
}

/// Four limbs that hold a value that fits one limb.
pub fn u256_from_u64(k: u64) -> (r: [u64; 4])
    ensures
        u256_val(r) == k,
{
    let r: [u64; 4] = [k, 0, 0, 0];
    proof {
        assert(r[0] == k && r[1] == 0 && r[2] == 0 && r[3] == 0);
        lemma_u256_unfold(r);
    }
    r
}

/// The same value in eight limbs.
pub fn u256_widen(a: &[u64; 4]) -> (r: [u64; 8])
    ensures
        u512_val(r) == u256_val(*a),
{
    let r: [u64; 8] = [a[0], a[1], a[2], a[3], 0, 0, 0, 0];
    proof {
        let z: [u64; 4] = [0, 0, 0, 0];
        assert(z[0] == 0 && z[1] == 0 && z[2] == 0 && z[3] == 0);
        lemma_u256_unfold(z);
        assert(forall|i: int| 0 <= i < 4 ==> r@[i] == a@[i] && r@[i + 4] == z@[i]);
        assert(r@ =~= a@ + z@);
        lemma_limbs_concat(a@, z@);
    }
    r
}

/// The low four limbs of a value that fits in them.
pub fn u512_narrow(a: &[u64; 8]) -> (r: [u64; 4])
    requires
        u512_val(*a) < pow2(256),
    ensures
        u256_val(r) == u512_val(*a),
{
    let r: [u64; 4] = [a[0], a[1], a[2], a[3]];
    proof {
        let hi: [u64; 4] = [a[4], a[5], a[6], a[7]];
        assert(forall|i: int| 0 <= i < 4 ==> r@[i] == a@[i] && hi@[i] == a@[i + 4]);
        assert(a@ =~= r@ + hi@);
        lemma_limbs_concat(r@, hi@);
        assert((64 * r@.len()) as nat == 256);
        lemma_pow2_pos(256);
        assert(u512_val(*a) == u256_val(r) + pow2(256) * u256_val(hi));
        let h = u256_val(hi) as int;
        let p = pow2(256) as int;
        assert(h == 0) by (nonlinear_arith)
            requires
                p * h < p,
                p > 0,
                h >= 0,
        ;
        assert(p * h == 0) by (nonlinear_arith)
            requires
                h == 0,
        ;
    }
    r
}

/// Relies on `U256`'s `Add`: the exact sum, which panics on overflow.
#[verifier::external_body]
pub(crate) fn u256_add(a: &[u64; 4], b: &[u64; 4]) -> (r: [u64; 4])
    requires
        u256_val(*a) + u256_val(*b) < pow2(256),
    ensures
        u256_val(r) == u256_val(*a) + u256_val(*b),
{
    (U256(*a) + U256(*b)).0
}

/// Relies on `U256`'s `Sub`: the exact difference, which panics on underflow.
#[verifier::external_body]
pub(crate) fn u256_sub(a: &[u64; 4], b: &[u64; 4]) -> (r: [u64; 4])
    requires
        u256_val(*a) >= u256_val(*b),
    ensures
        u256_val(r) == u256_val(*a) - u256_val(*b),
{
    (U256(*a) - U256(*b)).0
}

/// Relies on `U256`'s `PartialOrd`, which compares the limbs from the most significant one.
#[verifier::external_body]
pub(crate) fn u256_lt(a: &[u64; 4], b: &[u64; 4]) -> (r: bool)
    ensures
        r == (u256_val(*a) < u256_val(*b)),
{
    U256(*a) < U256(*b)
}

/// Relies on `U256`'s `Rem`: the remainder of the division, which panics on a zero divisor.
#[verifier::external_body]
pub(crate) fn u256_rem(a: &[u64; 4], b: &[u64; 4]) -> (r: [u64; 4])
    requires
        u256_val(*b) > 0,
    ensures
        u256_val(r) == u256_val(*a) % u256_val(*b),
{
    (U256(*a) % U256(*b)).0
}

/// Relies on `U512`'s `Rem`: the remainder of the division, which panics on a zero divisor.
#[verifier::external_body]
pub(crate) fn u512_rem(a: &[u64; 8], b: &[u64; 8]) -> (r: [u64; 8])
    requires
        u512_val(*b) > 0,
    ensures
        u512_val(r) == u512_val(*a) % u512_val(*b),
{
    (U512(*a) % U512(*b)).0
}

/// Relies on `U256::full_mul`: the whole 512-bit product.
#[verifier::external_body]
pub(crate) fn u256_full_mul(a: &[u64; 4], b: &[u64; 4]) -> (r: [u64; 8])
    ensures
        u512_val(r) == u256_val(*a) * u256_val(*b),
{
    U256(*a).full_mul(U256(*b)).0
}

/// Relies on `U256::bit`: whether bit `i` is set; it panics for `i` past the width.
#[verifier::external_body]
pub(crate) fn u256_bit(a: &[u64; 4], i: usize) -> (r: bool)
    requires
        i < 256,
    ensures
        r == ((u256_val(*a) / pow2(i as nat)) % 2 == 1),
{
    U256(*a).bit(i)
}

/// Relies on `U256::leading_zeros`: the value fits in the bits below the leading zeros.
#[verifier::external_body]
pub(crate) fn u256_leading_zeros(a: &[u64; 4]) -> (r: u32)
    ensures
        r <= 256,
        u256_val(*a) < pow2((256 - r) as nat),
        r < 256 ==> pow2((255 - r) as nat) <= u256_val(*a),
{
    U256(*a).leading_zeros()
}

} // verus!
