use crate::finite_field::{field_div, field_neg, FieldError, FiniteField, U256FFE};
use crate::limbs::{lemma_u256_unfold, u256_val};
use vstd::arithmetic::div_mod::{
    lemma_add_mod_noop, lemma_mod_bound, lemma_mul_mod_noop_left, lemma_small_mod,
};
use vstd::arithmetic::power2::{lemma2_to64, lemma2_to64_rest, lemma_pow2_adds, pow2};
use vstd::prelude::*;

verus! {

/// The field modulus `2^255 - 19`, in little-endian limbs.
pub const ED25519_MODULUS: [u64; 4] = [
    0xffffffffffffffed,
    0xffffffffffffffff,
    0xffffffffffffffff,
    0x7fffffffffffffff,
];

/// The curve parameter `d = -121665 / 121666`, in little-endian limbs.
pub const CURVE_PARAMETER: [u64; 4] = [
    0x75eb4dca135978a3,
    0x00700a4d4141d8ab,
    0x8cc740797779e898,
    0x52036cee2b6ffe73,
];

/// The x coordinate of the base point.
pub const GENERATOR_X: [u64; 4] = [
    0xc9562d608f25d51a,
    0x692cc7609525a7b2,
    0xc0a4e231fdd6dc5c,
    0x216936d3cd6e53fe,
];

/// The y coordinate of the base point.
pub const GENERATOR_Y: [u64; 4] = [
    0x6666666666666658,
    0x6666666666666666,
    0x6666666666666666,
    0x6666666666666666,
];

/// `2^255 - 19`
pub open spec fn field_prime() -> int {
    pow2(255) - 19
}

/// The curve parameter `d` as an integer.
pub open spec fn curve_d() -> int {
    u256_val(CURVE_PARAMETER) as int
}

/// The modulus limbs hold `2^255 - 19`.
pub proof fn lemma_constants()
    ensures
        u256_val(ED25519_MODULUS) == field_prime(),
        field_prime() > 2,
{
    let m = ED25519_MODULUS;
    assert(m[0] == 0xffffffffffffffed && m[1] == 0xffffffffffffffff && m[2] == 0xffffffffffffffff
        && m[3] == 0x7fffffffffffffff);
    lemma2_to64();
    lemma2_to64_rest();
    lemma_u256_unfold(m);
    lemma_pow2_adds(64, 64);
    lemma_pow2_adds(128, 64);
    lemma_pow2_adds(192, 63);
    let w = pow2(64) as int;
    let h = pow2(63) as int;
    assert(pow2(255) == w * w * w * h);
    assert(u256_val(m) == pow2(255) - 19) by (nonlinear_arith)
        requires
            u256_val(m) == 0xffffffffffffffed + w * (0xffffffffffffffff + w * (0xffffffffffffffff + w
                * 0x7fffffffffffffff)),
            w == 0x10000000000000000,
            h == 0x8000000000000000,
            pow2(255) == w * w * w * h,
    ;
}

/// `d * x1 * x2 * y1 * y2 mod p`, the term shared by both denominators of the addition law.
pub open spec fn sum_cross(x1: int, y1: int, x2: int, y2: int) -> int {
    (curve_d() * x1 * x2 * y1 * y2) % field_prime()
}

/// `x1 * y2 + y1 * x2 mod p`
pub open spec fn sum_x_numerator(x1: int, y1: int, x2: int, y2: int) -> int {
    (x1 * y2 + y1 * x2) % field_prime()
}

/// `1 + d * x1 * x2 * y1 * y2 mod p`
pub open spec fn sum_x_denominator(x1: int, y1: int, x2: int, y2: int) -> int {
    (1 + sum_cross(x1, y1, x2, y2)) % field_prime()
}

/// `y1 * y2 + x1 * x2 mod p`
pub open spec fn sum_y_numerator(x1: int, y1: int, x2: int, y2: int) -> int {
    (y1 * y2 + x1 * x2) % field_prime()
}

/// `1 - d * x1 * x2 * y1 * y2 mod p`
pub open spec fn sum_y_denominator(x1: int, y1: int, x2: int, y2: int) -> int {
    (1 - sum_cross(x1, y1, x2, y2)) % field_prime()
}

/// Whether the addition law is defined on the two coordinate pairs: both denominators are nonzero.
pub open spec fn sum_defined(x1: int, y1: int, x2: int, y2: int) -> bool {
    sum_x_denominator(x1, y1, x2, y2) != 0 && sum_y_denominator(x1, y1, x2, y2) != 0
}

/// The x coordinate of the sum under the twisted Edwards law with `a = -1`.
pub open spec fn sum_x(x1: int, y1: int, x2: int, y2: int) -> int {
    field_div(
        sum_x_numerator(x1, y1, x2, y2),
        sum_x_denominator(x1, y1, x2, y2),
        field_prime(),
    )
}

/// The y coordinate of the sum under the twisted Edwards law with `a = -1`.
pub open spec fn sum_y(x1: int, y1: int, x2: int, y2: int) -> int {
    field_div(
        sum_y_numerator(x1, y1, x2, y2),
        sum_y_denominator(x1, y1, x2, y2),
        field_prime(),
    )
}

/// A point of the curve, as two coordinates over the field of `2^255 - 19`.
#[derive(Debug, Clone, Copy, Eq)]
pub struct Point {
    pub x: U256FFE,
    pub y: U256FFE,
}

impl PartialEq for Point {
    fn eq(&self, other: &Point) -> (r: bool) {
        self.x == other.x && self.y == other.y
    }
}

impl vstd::std_specs::cmp::PartialEqSpecImpl for Point {
    open spec fn obeys_eq_spec() -> bool {
        true
    }

    open spec fn eq_spec(&self, other: &Point) -> bool {
        self.x == other.x && self.y == other.y
    }
}

impl Point {
    /// Both coordinates are residues of the curve's field.
    pub open spec fn well_formed(&self) -> bool {
        self.x.well_formed() && self.y.well_formed() && self.x.modulus == ED25519_MODULUS
            && self.y.modulus == ED25519_MODULUS
    }

    /// The x coordinate as an integer.
    pub open spec fn x_val(&self) -> int {
        self.x.residue()
    }

    /// The y coordinate as an integer.
    pub open spec fn y_val(&self) -> int {
        self.y.residue()
    }

    /// The point with coordinates `x mod p` and `y mod p`; it is not checked to lie on the curve.
    pub fn new(x: [u64; 4], y: [u64; 4]) -> (r: Point)
        ensures
            r.well_formed(),
            r.x_val() == u256_val(x) as int % field_prime(),
            r.y_val() == u256_val(y) as int % field_prime(),
    {
        proof {
            lemma_constants();
        }
        Point { x: U256FFE::new(x, ED25519_MODULUS), y: U256FFE::new(y, ED25519_MODULUS) }
    }

    /// The neutral element `(0, 1)`.
    pub fn identity() -> (r: Point)
        ensures
            r.well_formed(),
            r.x_val() == 0,
            r.y_val() == 1,
    {
        proof {
            lemma_constants();
            lemma_small_mod(1, field_prime() as nat);
            lemma_small_mod(0, field_prime() as nat);
        }
        let zero: [u64; 4] = [0, 0, 0, 0];
        let one: [u64; 4] = [1, 0, 0, 0];
        proof {
            assert(zero[0] == 0 && zero[1] == 0 && zero[2] == 0 && zero[3] == 0);
            assert(one[0] == 1 && one[1] == 0 && one[2] == 0 && one[3] == 0);
            lemma_u256_unfold(zero);
            lemma_u256_unfold(one);
        }
        Point::new(zero, one)
    }

    /// The curve's base point.
    pub fn generator() -> (r: Point)
        ensures
            r.well_formed(),
            r.x_val() == u256_val(GENERATOR_X) as int % field_prime(),
            r.y_val() == u256_val(GENERATOR_Y) as int % field_prime(),
    {
        Point::new(GENERATOR_X, GENERATOR_Y)
    }

    /// `(-x, y)`
    pub fn neg(&self) -> (r: Point)
        requires
            self.well_formed(),
        ensures
            r.well_formed(),
            r.x_val() == field_neg(self.x_val(), field_prime()),
            r.y_val() == self.y_val(),
    {
        proof {
            lemma_constants();
        }
        Point { x: self.x.neg(), y: self.y }
    }

    /// The sum under the unified twisted Edwards law; refused where a denominator is zero.
    pub fn add(&self, other: Point) -> (r: Result<Point, FieldError>)
        requires
            self.well_formed(),
            other.well_formed(),
        ensures
            !sum_defined(self.x_val(), self.y_val(), other.x_val(), other.y_val()) ==> r == Err::<
                Point,
                FieldError,
            >(FieldError::DivisionByZero),
            sum_defined(self.x_val(), self.y_val(), other.x_val(), other.y_val()) ==> (r matches Ok(
                q,
            ) && q.well_formed() && q.x_val() == sum_x(
                self.x_val(),
                self.y_val(),
                other.x_val(),
                other.y_val(),
            ) && q.y_val() == sum_y(self.x_val(), self.y_val(), other.x_val(), other.y_val())),
    {
        let ghost p = field_prime();
        let ghost x1 = self.x_val();
        let ghost y1 = self.y_val();
        let ghost x2 = other.x_val();
        let ghost y2 = other.y_val();
        proof {
            lemma_constants();
            lemma_small_mod(1, p as nat);
        }
        let dx = self.x.ffscale(CURVE_PARAMETER);
        let dxx = dx.ffmul(other.x);
        let dxxy = dxx.ffmul(self.y);
        let cross = dxxy.ffmul(other.y);
        proof {
            let d = curve_d();
            lemma_mul_mod_noop_left(x1 * d, x2, p);
            lemma_mul_mod_noop_left(x1 * d * x2, y1, p);
            lemma_mul_mod_noop_left(x1 * d * x2 * y1, y2, p);
            assert(x1 * d * x2 * y1 * y2 == d * x1 * x2 * y1 * y2) by (nonlinear_arith);
            assert(cross.residue() == sum_cross(x1, y1, x2, y2));
        }
        let one = U256FFE::one(ED25519_MODULUS);
        let x_num = self.x.ffmul(other.y).ffadd(self.y.ffmul(other.x));
        let x_den = one.ffadd(cross);
        let y_num = self.y.ffmul(other.y).ffadd(self.x.ffmul(other.x));
        let y_den = one.ffsub(cross);
        proof {
            lemma_add_mod_noop(x1 * y2, y1 * x2, p);
            lemma_add_mod_noop(y1 * y2, x1 * x2, p);
            lemma_mod_bound(1 + sum_cross(x1, y1, x2, y2), p);
            assert(x_num.residue() == sum_x_numerator(x1, y1, x2, y2));
            assert(y_num.residue() == sum_y_numerator(x1, y1, x2, y2));
            assert(x_den.residue() == sum_x_denominator(x1, y1, x2, y2));
            assert(y_den.residue() == sum_y_denominator(x1, y1, x2, y2));
        }
        let x3 = match x_num.ffdiv(x_den) {
            Ok(v) => v,
            Err(e) => {
                return Err(e);
            },
        };
        let y3 = match y_num.ffdiv(y_den) {
            Ok(v) => v,
            Err(e) => {
                return Err(e);
            },
        };
        Ok(Point { x: x3, y: y3 })
    }

    /// `self + (-other)`
    pub fn sub(&self, other: Point) -> (r: Result<Point, FieldError>)
        requires
            self.well_formed(),
            other.well_formed(),
        ensures
            ({
                let nx = field_neg(other.x_val(), field_prime());
                &&& !sum_defined(self.x_val(), self.y_val(), nx, other.y_val()) ==> r == Err::<
                    Point,
                    FieldError,
                >(FieldError::DivisionByZero)
                &&& sum_defined(self.x_val(), self.y_val(), nx, other.y_val()) ==> (r matches Ok(
                    q,
                ) && q.well_formed() && q.x_val() == sum_x(
                    self.x_val(),
                    self.y_val(),
                    nx,
                    other.y_val(),
                ) && q.y_val() == sum_y(self.x_val(), self.y_val(), nx, other.y_val()))
            }),
    {
        self.add(other.neg())
    }
}

} // verus!
