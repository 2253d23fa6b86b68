use crypto::finite_field::{FieldError, FiniteField, U256FFE};

const MODULUS: [u64; 4] = [
    0xffffffffffffffed, 0xffffffffffffffff, 0xffffffffffffffff, 0x7fffffffffffffff,
];

const WIDE_MODULUS: [u64; 4] = [u64::MAX, u64::MAX, u64::MAX, u64::MAX];

const SMALL_MODULUS: [u64; 4] = [71, 0, 0, 0];

fn small(n: u64) -> U256FFE {
    U256FFE::new([n, 0, 0, 0], SMALL_MODULUS)
}

#[test]
fn finite_field() {
    let _c = U256FFE::new([0xffffffff, 0xffffffff, 0xffffffff, 0xffffffff], MODULUS);
    let a = U256FFE::new([14, 0, 0, 0], MODULUS);
    let one = U256FFE::one(MODULUS);

    // 1 / x
    assert_eq!(
        one.ffdiv(a),
        Ok(U256FFE::new(
            [0x924924924924923d, 0x4924924924924924, 0x2492492492492492, 0x5249249249249249],
            MODULUS
        )),
    );

    // x * (1 / x)
    assert_eq!(a.ffmul(one.ffdiv(a).unwrap()), one);

    // x * x
    assert_eq!(a.ffmul(a), U256FFE::new([196, 0, 0, 0], MODULUS));

    let e = U256FFE::new([234, 0, 0, 0], [2, 0, 0, 0]);
    assert_eq!(e.ffmul(e), U256FFE::new([0; 4], [2, 0, 0, 0]));
}

#[test]
fn new_reduces_into_range() {
    let a = U256FFE::new([0xfffaf113, 0x94000fb0, 0x39c3d09f, 0xe4a0a3fe], SMALL_MODULUS);
    let b = U256FFE::new([0x1ff498ea, 0x9541c5d1, 0xd6f9a6c0, 0xe6f89d1f], SMALL_MODULUS);
    assert_eq!(a.value, [1, 0, 0, 0]);
    assert_eq!(b.value, [17, 0, 0, 0]);
    assert_eq!(a.ffmul(b), small(17));
    assert_eq!(small(75), small(4));
}

#[test]
fn small_field_arithmetic() {
    assert_eq!(small(50).ffadd(small(30)), small(9));
    assert_eq!(small(5).ffsub(small(9)), small(67));
    assert_eq!(small(9).ffsub(small(5)), small(4));
    assert_eq!(small(10).ffmul(small(9)), small(19));
    assert_eq!(small(3).exp([5, 0, 0, 0]), small(30));
    assert_eq!(small(3).ffexp([0, 0, 0, 0]), small(1));
    assert_eq!(small(5).neg(), small(66));
    assert_eq!(small(0).neg(), small(0));
}

#[test]
fn division_in_small_field() {
    // 3 * 24 = 72 = 1 mod 71
    assert_eq!(small(1).ffdiv(small(3)), Ok(small(24)));
    assert_eq!(small(10).ffdiv(small(3)), Ok(small(27)));
}

#[test]
fn closure_near_the_word_width() {
    let top = U256FFE::new(
        [0xfffffffffffffffe, u64::MAX, u64::MAX, u64::MAX],
        WIDE_MODULUS,
    );
    assert_eq!(
        top.ffadd(top),
        U256FFE::new([0xfffffffffffffffd, u64::MAX, u64::MAX, u64::MAX], WIDE_MODULUS)
    );
    assert_eq!(top.ffmul(top), U256FFE::new([1, 0, 0, 0], WIDE_MODULUS));
    assert_eq!(top.ffsub(top), U256FFE::zero(WIDE_MODULUS));
    let p_minus_one = U256FFE::new(
        [0xffffffffffffffec, u64::MAX, u64::MAX, 0x7fffffffffffffff],
        MODULUS,
    );
    assert_eq!(p_minus_one.ffmul(p_minus_one), U256FFE::one(MODULUS));
    assert_eq!(p_minus_one.ffadd(U256FFE::one(MODULUS)), U256FFE::zero(MODULUS));
}

#[test]
fn scale_takes_an_unreduced_multiplier() {
    // 75 is not reduced before the product: 2 * 75 = 150 = 8 mod 71
    assert_eq!(small(2).ffscale([75, 0, 0, 0]), small(8));
    assert_eq!(small(2).mul_int(75), Ok(small(8)));
    assert_eq!(small(2).mul_int(0), Ok(small(0)));
    assert_eq!(small(2).mul_int(-1), Err(FieldError::RepresentationOverflow));
}

#[test]
fn identities_hold() {
    let a = U256FFE::new([14, 0, 0, 0], MODULUS);
    assert_eq!(a.ffadd(U256FFE::zero(MODULUS)), a);
    assert_eq!(a.ffmul(U256FFE::one(MODULUS)), a);
    assert_eq!(a.ffsub(a), U256FFE::zero(MODULUS));
    assert_eq!(a.ffdiv(a), Ok(U256FFE::one(MODULUS)));
}

#[test]
fn exponent_p_minus_two_is_the_inverse() {
    let a = U256FFE::new([14, 0, 0, 0], MODULUS);
    let p_minus_two = [0xffffffffffffffeb, u64::MAX, u64::MAX, 0x7fffffffffffffff];
    assert_eq!(Ok(a.exp(p_minus_two)), U256FFE::one(MODULUS).ffdiv(a));
    let b = small(3);
    assert_eq!(Ok(b.exp([69, 0, 0, 0])), small(1).ffdiv(b));
}

#[test]
fn algebraic_laws_on_samples() {
    let a = U256FFE::new([0x1234, 0x5678, 0x9abc, 0x0def], MODULUS);
    let b = U256FFE::new([u64::MAX, 7, 0, 0x7000000000000000], MODULUS);
    let c = U256FFE::new([3, 0, 0, 0], MODULUS);
    assert_eq!(a.ffadd(b), b.ffadd(a));
    assert_eq!(a.ffmul(b), b.ffmul(a));
    assert_eq!(a.ffadd(b).ffadd(c), a.ffadd(b.ffadd(c)));
    assert_eq!(a.ffmul(b).ffmul(c), a.ffmul(b.ffmul(c)));
    assert_eq!(a.neg().neg(), a);
    assert_eq!(a.ffadd(a.neg()), U256FFE::zero(MODULUS));
}

#[test]
fn division_rejects_small_modulus_and_zero() {
    let two = [2, 0, 0, 0];
    let x = U256FFE::new([1, 0, 0, 0], two);
    assert_eq!(x.ffdiv(x), Err(FieldError::InvalidModulus));
    assert_eq!(x.ffdiv(U256FFE::zero(two)), Err(FieldError::InvalidModulus));
    let unit = U256FFE::zero([1, 0, 0, 0]);
    assert_eq!(unit.ffdiv(unit), Err(FieldError::InvalidModulus));
    assert_eq!(small(5).ffdiv(small(0)), Err(FieldError::DivisionByZero));
    assert_eq!(
        U256FFE::one(MODULUS).ffdiv(U256FFE::zero(MODULUS)),
        Err(FieldError::DivisionByZero)
    );
}

#[test]
fn degenerate_field_of_two() {
    let two = [2, 0, 0, 0];
    let e = U256FFE::new([234, 0, 0, 0], two);
    let o = U256FFE::new([235, 0, 0, 0], two);
    assert_eq!(e.ffmul(e), U256FFE::zero(two));
    assert_eq!(o.ffadd(o), U256FFE::zero(two));
    assert_eq!(o.ffsub(e), U256FFE::one(two));
    assert_eq!(o.ffmul(o), U256FFE::one(two));
}
