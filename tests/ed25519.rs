use crypto::ed25519::{Point, CURVE_PARAMETER, ED25519_MODULUS, GENERATOR_X, GENERATOR_Y};
use crypto::finite_field::{FieldError, FiniteField, U256FFE};

#[test]
fn ed25519() {
    let generator = Point::generator();

    assert_eq!(
        generator.add(generator),
        Ok(Point::new(
            [0x83c5a14e2843ce0e, 0x080d8e4515d7a45f, 0x3d043b7d1833e7ac, 0x36ab384c9f5a046c],
            [0x0e5f46ae6af8a3c9, 0x97390f5164385156, 0x1da25ee8c9a21f56, 0x2260cdf3092329c2]
        ))
    );

    assert_eq!(generator.sub(generator), Ok(Point::identity()));
}

#[test]
fn generator_coordinates() {
    let g = Point::generator();
    assert_eq!(g.x, U256FFE::new(GENERATOR_X, ED25519_MODULUS));
    assert_eq!(g.y, U256FFE::new(GENERATOR_Y, ED25519_MODULUS));
}

#[test]
fn identity_is_neutral() {
    let g = Point::generator();
    let e = Point::identity();
    assert_eq!(e.x, U256FFE::zero(ED25519_MODULUS));
    assert_eq!(e.y, U256FFE::one(ED25519_MODULUS));
    assert_eq!(g.add(e), Ok(g));
    assert_eq!(e.add(g), Ok(g));
    assert_eq!(e.add(e), Ok(e));
}

#[test]
fn negating_the_identity_gives_the_identity() {
    assert_eq!(Point::identity().neg(), Point::identity());
}

#[test]
fn negation_flips_x_only() {
    let g = Point::generator();
    let n = g.neg();
    assert_eq!(n.y, g.y);
    assert_eq!(n.x, g.x.neg());
    assert_eq!(n.neg(), g);
    assert_eq!(g.add(n), Ok(Point::identity()));
}

#[test]
fn coordinates_are_reduced() {
    let p = Point::new(ED25519_MODULUS, [0xffffffffffffffee, u64::MAX, u64::MAX, 0x7fffffffffffffff]);
    assert_eq!(p, Point::new([0; 4], [1, 0, 0, 0]));
}

#[test]
fn doubling_agrees_with_adding_twice() {
    let g = Point::generator();
    let two_g = g.add(g).unwrap();
    let three_g = two_g.add(g).unwrap();
    assert_eq!(g.add(two_g), Ok(three_g));
    assert_eq!(three_g.sub(g), Ok(two_g));
}

#[test]
fn sum_with_a_zero_denominator_is_refused() {
    // off the curve, (1, 1) + (1 / d, 1) has d * x1 * x2 * y1 * y2 = 1, so 1 - 1 = 0
    let d_inverse = U256FFE::one(ED25519_MODULUS)
        .ffdiv(U256FFE::new(CURVE_PARAMETER, ED25519_MODULUS))
        .unwrap();
    let p = Point::new([1, 0, 0, 0], [1, 0, 0, 0]);
    let q = Point { x: d_inverse, y: U256FFE::one(ED25519_MODULUS) };
    assert_eq!(p.add(q), Err(FieldError::DivisionByZero));
}
