//! Fixed-point arithmetic helpers shared by the geometric pipeline.
//!
//! Fractions are represented as integers scaled by a power-of-two
//! denominator; every division rounds toward negative infinity (floor),
//! which coincides with Verus's mathematical (Euclidean) division for a
//! positive divisor, so the executable code and the specifications speak
//! the same language.

use vstd::prelude::*;

verus! {

/// Denominator of rotation-matrix entries and of other dimensionless
/// fractions: an entry `v` stands for the real number `v / ROT_DEN`.
pub const ROT_DEN: i64 = 1048576;

/// Denominator of fixed-point pixel coordinates.
pub const PIX_DEN: i64 = 1048576;

/// Largest magnitude allowed for a translation component (micrometers).
pub const TRANS_LIMIT: i64 = 1099511627776;

/// Largest magnitude allowed for a raw scanner-frame coordinate
/// (micrometers): about 1100 kilometers, far beyond any scanner's range.
pub const POINT_LIMIT: i64 = 1099511627776;

/// Largest coordinate magnitude a rigid transform accepts (micrometers).
/// Chaining two transforms from a point within `POINT_LIMIT` stays well
/// inside this bound.
pub const APPLY_LIMIT: i64 = 17592186044416;

/// Largest coordinate magnitude a rigid transform can produce from an
/// input within `APPLY_LIMIT`.
pub const RESULT_LIMIT: i64 = 70368744177664;

/// Floor division for 128-bit operands with a positive divisor.
///
/// The result equals mathematical division `a / b`, which for `b > 0`
/// rounds toward negative infinity.
pub fn floor_div_i128(a: i128, b: i128) -> (r: i128)
    requires
        b > 0,
        a > i128::MIN + b,
    ensures
        r == a as int / b as int,
        b * r <= a < b * (r + 1),
{
    proof {
        vstd::arithmetic::div_mod::lemma_fundamental_div_mod(a as int, b as int);
        vstd::arithmetic::div_mod::lemma_mod_bound(a as int, b as int);
        assert(b * (a as int / b as int) <= a < b * (a as int / b as int + 1))
            by (nonlinear_arith)
            requires
                b > 0,
                a as int == b as int * (a as int / b as int) + a as int % (b as int),
                0 <= a as int % (b as int) < b as int,
        ;
    }
    if a >= 0 {
        let q: i128 = a / b;
        proof {
            assert(q == a as int / b as int);
        }
        q
    } else {
        let q: i128 = -((-a - 1) / b) - 1;
        proof {
            let na: int = -a - 1;
            vstd::arithmetic::div_mod::lemma_fundamental_div_mod(na, b as int);
            vstd::arithmetic::div_mod::lemma_mod_bound(na, b as int);
            assert(q == a as int / b as int) by {
                let qq: int = -(na / (b as int)) - 1;
                assert(na == (b as int) * (na / (b as int)) + na % (b as int));
                assert(a as int == (b as int) * qq + ((b as int) - 1 - na % (b as int)))
                    by (nonlinear_arith)
                    requires
                        na == (b as int) * (na / (b as int)) + na % (b as int),
                        qq == -(na / (b as int)) - 1,
                        a as int == -na - 1,
                ;
                assert(0 <= (b as int) - 1 - na % (b as int) < b as int);
                vstd::arithmetic::div_mod::lemma_fundamental_div_mod_converse(
                    a as int,
                    b as int,
                    qq,
                    (b as int) - 1 - na % (b as int),
                );
            }
        }
        q
    }
}

/// The product of two values is bounded by the product of their bounds.
pub proof fn lemma_mul_bound(a: int, b: int, bound_a: int, bound_b: int)
    requires
        -bound_a <= a <= bound_a,
        -bound_b <= b <= bound_b,
        0 <= bound_a,
        0 <= bound_b,
    ensures
        -(bound_a * bound_b) <= a * b <= bound_a * bound_b,
{
    assert(-(bound_a * bound_b) <= a * b <= bound_a * bound_b) by (nonlinear_arith)
        requires
            -bound_a <= a <= bound_a,
            -bound_b <= b <= bound_b,
            0 <= bound_a,
            0 <= bound_b,
    ;
}

/// Floor division by a positive divisor maps a symmetric interval into a
/// nearly symmetric one: from `|a| <= bound` follows
/// `-(bound / b) - 1 <= a / b <= bound / b`.
pub proof fn lemma_div_bound(a: int, b: int, bound: int)
    requires
        0 < b,
        0 <= bound,
        -bound <= a <= bound,
    ensures
        -(bound / b) - 1 <= a / b <= bound / b,
{
    vstd::arithmetic::div_mod::lemma_div_is_ordered(a, bound, b);
    vstd::arithmetic::div_mod::lemma_div_is_ordered(-bound, a, b);
    assert((-bound) / b >= -(bound / b) - 1) by {
        vstd::arithmetic::div_mod::lemma_fundamental_div_mod(bound, b);
        vstd::arithmetic::div_mod::lemma_mod_bound(bound, b);
        let q: int = bound / b;
        let r: int = bound % b;
        if r == 0 {
            assert(-bound == b * (-q) + 0) by (nonlinear_arith)
                requires
                    bound == b * q + r,
                    r == 0,
            ;
            vstd::arithmetic::div_mod::lemma_fundamental_div_mod_converse(-bound, b, -q, 0);
        } else {
            assert(-bound == b * (-q - 1) + (b - r)) by (nonlinear_arith)
                requires
                    bound == b * q + r,
            ;
            assert(0 <= b - r < b);
            vstd::arithmetic::div_mod::lemma_fundamental_div_mod_converse(-bound, b, -q - 1, b - r);
        }
    }
}

/// If `a` is below `b * q`, its floor quotient by `b` is below `q`.
pub proof fn lemma_div_below(a: int, b: int, q: int)
    requires
        0 < b,
        a < b * q,
    ensures
        a / b < q,
{
    vstd::arithmetic::div_mod::lemma_fundamental_div_mod(a, b);
    vstd::arithmetic::div_mod::lemma_mod_bound(a, b);
    assert(a / b < q) by (nonlinear_arith)
        requires
            0 < b,
            a < b * q,
            a == b * (a / b) + a % b,
            0 <= a % b < b,
    ;
}

/// If `a` is at least `b * q`, its floor quotient by `b` is at least `q`.
pub proof fn lemma_div_at_least(a: int, b: int, q: int)
    requires
        0 < b,
        b * q <= a,
    ensures
        q <= a / b,
{
    vstd::arithmetic::div_mod::lemma_fundamental_div_mod(a, b);
    vstd::arithmetic::div_mod::lemma_mod_bound(a, b);
    assert(q <= a / b) by (nonlinear_arith)
        requires
            0 < b,
            b * q <= a,
            a == b * (a / b) + a % b,
            0 <= a % b < b,
    ;
}

} // verus!
