//! Deterministic fixed-point decimal arithmetic.
//!
//! Every quantity that enters an invariant, a feature, or the accounting
//! is a `Fixed`: an integer mantissa scaled by `SCALE` (14 decimal
//! places). Arithmetic truncates toward zero and fails explicitly on
//! overflow or division by zero; nothing wraps and nothing is a NaN.

use vstd::prelude::*;

verus! {

/// Number of mantissa units per whole unit: 10^14.
pub const SCALE: i128 = 100_000_000_000_000;

/// Largest mantissa magnitude a `Fixed` may hold: 10^19.
/// The bound keeps the product of any two mantissas inside `u128`.
pub const BOUND: i128 = 10_000_000_000_000_000_000;

/// Largest whole-unit magnitude representable: `BOUND / SCALE`.
pub const MAX_UNITS: i64 = 100_000;

/// Magnitude of a mathematical integer.
pub open spec fn abs_i(a: int) -> int {
    if a >= 0 {
        a
    } else {
        -a
    }
}

/// Whether a mantissa value is representable.
pub open spec fn fits(a: int) -> bool {
    -(BOUND as int) <= a && a <= BOUND as int
}

/// Division truncating toward zero, the rounding rule of all `Fixed`
/// arithmetic. Zero divisor yields zero; callers rule that case out.
pub open spec fn div_tz(a: int, b: int) -> int {
    if b == 0 {
        0
    } else if (a >= 0) == (b >= 0) {
        abs_i(a) / abs_i(b)
    } else {
        -(abs_i(a) / abs_i(b))
    }
}

/// Mantissa of the product of two values given by their mantissas.
pub open spec fn mul_val(x: int, y: int) -> int {
    div_tz(x * y, SCALE as int)
}

/// Mantissa of the quotient of two values given by their mantissas.
pub open spec fn div_val(x: int, y: int) -> int {
    div_tz(x * (SCALE as int), y)
}

/// Largest mantissa magnitude a wide product can reach:
/// `BOUND * BOUND / SCALE`, that is 10^24.
pub const WIDE_BOUND: i128 = 1_000_000_000_000_000_000_000_000;

/// An arithmetic failure: the operation reports it rather than wrapping.
#[derive(Clone, Copy, Debug, PartialEq, Eq, Structural)]
pub enum ArithError {
    Overflow,
    DivisionByZero,
}

/// Spec-level constructor: the `Fixed` value whose mantissa is `m`.
pub closed spec fn spec_fixed(m: int) -> Fixed {
    Fixed { m: m as i128 }
}

/// The view determines the value: mantissa equality is value equality.
pub proof fn lemma_fixed_eq(a: Fixed, b: Fixed)
    requires
        a@ == b@,
    ensures
        a == b,
{
}

/// `spec_fixed` inverts the view on every in-range mantissa.
pub broadcast proof fn lemma_spec_fixed(m: int)
    requires
        fits(m),
    ensures
        (#[trigger] spec_fixed(m))@ == m,
{
}

/// Fixed-point decimal: `m / SCALE`, with `|m| <= BOUND`.
#[derive(Clone, Copy, Debug, PartialEq, Eq, Structural)]
pub struct Fixed {
    m: i128,
}

impl View for Fixed {
    type V = int;

    closed spec fn view(&self) -> int {
        self.m as int
    }
}

proof fn lemma_abs_mul(x: int, y: int)
    ensures
        abs_i(x * y) == abs_i(x) * abs_i(y),
{
    if x >= 0 && y >= 0 {
        assert(x * y >= 0) by (nonlinear_arith)
            requires
                x >= 0,
                y >= 0,
        ;
    } else if x >= 0 && y < 0 {
        assert(x * y <= 0 && x * y == -(x * (-y)) && x * (-y) >= 0) by (nonlinear_arith)
            requires
                x >= 0,
                y < 0,
        ;
    } else if x < 0 && y >= 0 {
        assert(x * y <= 0 && x * y == -((-x) * y) && (-x) * y >= 0) by (nonlinear_arith)
            requires
                x < 0,
                y >= 0,
        ;
    } else {
        assert(x * y >= 0 && x * y == (-x) * (-y)) by (nonlinear_arith)
            requires
                x < 0,
                y < 0,
        ;
    }
}

impl Fixed {
    /// Every reachable `Fixed` holds a mantissa within `BOUND`.
    #[verifier::type_invariant]
    pub open spec fn bounded(self) -> bool {
        fits(self@)
    }

    /// The zero value.
    pub fn zero() -> (r: Fixed)
        ensures
            r@ == 0,
    {
        Fixed { m: 0 }
    }

    /// The value one.
    pub fn one() -> (r: Fixed)
        ensures
            r@ == SCALE as int,
    {
        Fixed { m: SCALE }
    }

    /// Builds a value from a raw mantissa known to be in range.
    pub fn from_mantissa(m: i128) -> (r: Fixed)
        requires
            fits(m as int),
        ensures
            r@ == m as int,
    {
        Fixed { m }
    }

    /// Builds a value from a raw mantissa, rejecting one out of range.
    pub fn try_from_mantissa(m: i128) -> (r: Option<Fixed>)
        ensures
            match r {
                Some(v) => v@ == m as int && fits(m as int),
                None => !fits(m as int),
            },
    {
        if -BOUND <= m && m <= BOUND {
            Some(Fixed { m })
        } else {
            None
        }
    }

    /// Builds a value from a count of whole units.
    pub fn from_units(u: i64) -> (r: Option<Fixed>)
        ensures
            match r {
                Some(v) => v@ == u as int * SCALE as int && -(MAX_UNITS as int) <= u as int
                    <= MAX_UNITS as int,
                None => !(-(MAX_UNITS as int) <= u as int <= MAX_UNITS as int),
            },
    {
        if -MAX_UNITS <= u && u <= MAX_UNITS {
            assert((u as i128) * SCALE <= BOUND && -BOUND <= (u as i128) * SCALE)
                by (nonlinear_arith)
                requires
                    -(MAX_UNITS as int) <= u as int <= MAX_UNITS as int,
            ;
            Some(Fixed { m: (u as i128) * SCALE })
        } else {
            None
        }
    }

    /// The raw mantissa.
    pub fn mantissa(self) -> (r: i128)
        ensures
            r as int == self@,
            fits(self@),
    {
        proof {
            use_type_invariant(self);
        }
        self.m
    }

    /// Mantissa magnitude, as an unsigned word.
    fn abs_m(self) -> (r: u128)
        ensures
            r as int == abs_i(self@),
            r <= BOUND as u128,
    {
        proof {
            use_type_invariant(self);
        }
        if self.m < 0 {
            (-self.m) as u128
        } else {
            self.m as u128
        }
    }

    /// True on the zero value.
    pub fn is_zero(self) -> (r: bool)
        ensures
            r == (self@ == 0),
    {
        self.m == 0
    }

    /// True on a strictly positive value.
    pub fn is_positive(self) -> (r: bool)
        ensures
            r == (self@ > 0),
    {
        self.m > 0
    }

    /// True on a strictly negative value.
    pub fn is_negative(self) -> (r: bool)
        ensures
            r == (self@ < 0),
    {
        self.m < 0
    }

    /// Exact comparison: less-or-equal.
    pub fn le(self, other: Fixed) -> (r: bool)
        ensures
            r == (self@ <= other@),
    {
        self.m <= other.m
    }

    /// Exact comparison: strictly less.
    pub fn lt(self, other: Fixed) -> (r: bool)
        ensures
            r == (self@ < other@),
    {
        self.m < other.m
    }

    /// Exact comparison: greater-or-equal.
    pub fn ge(self, other: Fixed) -> (r: bool)
        ensures
            r == (self@ >= other@),
    {
        self.m >= other.m
    }

    /// Exact comparison: strictly greater.
    pub fn gt(self, other: Fixed) -> (r: bool)
        ensures
            r == (self@ > other@),
    {
        self.m > other.m
    }

    /// Negation; always representable since the bound is symmetric.
    pub fn neg(self) -> (r: Fixed)
        ensures
            r@ == -self@,
    {
        proof {
            use_type_invariant(self);
        }
        Fixed { m: -self.m }
    }

    /// Magnitude.
    pub fn abs(self) -> (r: Fixed)
        ensures
            r@ == abs_i(self@),
    {
        proof {
            use_type_invariant(self);
        }
        if self.m < 0 {
            Fixed { m: -self.m }
        } else {
            self
        }
    }

    /// The smaller of two values.
    pub fn min(self, other: Fixed) -> (r: Fixed)
        ensures
            r@ == if self@ <= other@ {
                self@
            } else {
                other@
            },
    {
        if self.m <= other.m {
            self
        } else {
            other
        }
    }

    /// Sum; fails explicitly when the result leaves the representable range.
    pub fn checked_add(self, other: Fixed) -> (r: Result<Fixed, ArithError>)
        ensures
            match r {
                Ok(v) => v@ == self@ + other@ && fits(self@ + other@),
                Err(e) => e == ArithError::Overflow && !fits(self@ + other@),
            },
    {
        proof {
            use_type_invariant(self);
            use_type_invariant(other);
        }
        let s: i128 = self.m + other.m;
        if -BOUND <= s && s <= BOUND {
            Ok(Fixed { m: s })
        } else {
            Err(ArithError::Overflow)
        }
    }

    /// Difference; fails explicitly on overflow.
    pub fn checked_sub(self, other: Fixed) -> (r: Result<Fixed, ArithError>)
        ensures
            match r {
                Ok(v) => v@ == self@ - other@ && fits(self@ - other@),
                Err(e) => e == ArithError::Overflow && !fits(self@ - other@),
            },
    {
        proof {
            use_type_invariant(self);
            use_type_invariant(other);
        }
        let s: i128 = self.m - other.m;
        if -BOUND <= s && s <= BOUND {
            Ok(Fixed { m: s })
        } else {
            Err(ArithError::Overflow)
        }
    }

    /// Product, truncated toward zero; fails explicitly on overflow.
    pub fn checked_mul(self, other: Fixed) -> (r: Result<Fixed, ArithError>)
        ensures
            match r {
                Ok(v) => v@ == mul_val(self@, other@) && fits(mul_val(self@, other@)),
                Err(e) => e == ArithError::Overflow && !fits(mul_val(self@, other@)),
            },
    {
        let an: u128 = self.abs_m();
        let bn: u128 = other.abs_m();
        assert((an as int) * (bn as int) <= u128::MAX as int) by (nonlinear_arith)
            requires
                an <= BOUND as u128,
                bn <= BOUND as u128,
        ;
        let p: u128 = an * bn;
        let q: u128 = p / (SCALE as u128);
        let negative: bool = (self.m < 0) != (other.m < 0);
        proof {
            use_type_invariant(self);
            use_type_invariant(other);
            lemma_abs_mul(self@, other@);
            assert(p as int == abs_i(self@ * other@));
            assert(q as int == abs_i(self@ * other@) / (SCALE as int));
        }
        if q > BOUND as u128 {
            proof {
                lemma_mul_sign_cases(self@, other@, q as int, negative);
            }
            Err(ArithError::Overflow)
        } else {
            let m: i128 = if negative {
                -(q as i128)
            } else {
                q as i128
            };
            proof {
                lemma_mul_sign_cases(self@, other@, q as int, negative);
            }
            Ok(Fixed { m })
        }
    }

    /// Truncated division of a wide mantissa by a positive divisor.
    pub fn div_tz_wide(v: i128, d: i128) -> (r: i128)
        requires
            v as int > i128::MIN as int,
            d > 0,
        ensures
            r as int == div_tz(v as int, d as int),
            abs_i(r as int) <= abs_i(v as int),
    {
        let vn: u128 = if v < 0 {
            (-v) as u128
        } else {
            v as u128
        };
        let q: u128 = vn / (d as u128);
        proof {
            vstd::arithmetic::div_mod::lemma_div_nonincreasing(vn as int, d as int);
            vstd::arithmetic::div_mod::lemma_div_pos_is_pos(vn as int, d as int);
        }
        if v < 0 {
            -(q as i128)
        } else {
            q as i128
        }
    }

    /// Half of a wide mantissa, truncated toward zero.
    pub fn half_tz(v: i128) -> (r: i128)
        requires
            v as int > i128::MIN as int,
        ensures
            r as int == div_tz(v as int, 2),
            abs_i(r as int) <= abs_i(v as int),
    {
        proof {
            vstd::arithmetic::div_mod::lemma_div_nonincreasing(
                if v >= 0 {
                    v as int
                } else {
                    -(v as int)
                },
                2,
            );
            vstd::arithmetic::div_mod::lemma_div_pos_is_pos(
                if v >= 0 {
                    v as int
                } else {
                    -(v as int)
                },
                2,
            );
        }
        if v < 0 {
            -((((-v) as u128) / 2) as i128)
        } else {
            (((v as u128) / 2) as i128)
        }
    }

    /// Product mantissa computed exactly, without the representable
    /// range check: the result can exceed `BOUND` but never
    /// `WIDE_BOUND`, so comparisons on it stay exact.
    pub fn wide_mul(self, other: Fixed) -> (r: i128)
        ensures
            r as int == mul_val(self@, other@),
            -(WIDE_BOUND as int) <= r as int <= WIDE_BOUND as int,
    {
        let an: u128 = self.abs_m();
        let bn: u128 = other.abs_m();
        assert((an as int) * (bn as int) <= (BOUND as int) * (BOUND as int) && (BOUND as int) * (
        BOUND as int) <= u128::MAX as int) by (nonlinear_arith)
            requires
                an <= BOUND as u128,
                bn <= BOUND as u128,
        ;
        let p: u128 = an * bn;
        let q: u128 = p / (SCALE as u128);
        let negative: bool = self.is_negative() != other.is_negative();
        proof {
            use_type_invariant(self);
            use_type_invariant(other);
            lemma_abs_mul(self@, other@);
            assert((BOUND as int) * (BOUND as int) / (SCALE as int) == WIDE_BOUND as int)
                by (nonlinear_arith);
            vstd::arithmetic::div_mod::lemma_div_is_ordered(
                p as int,
                (BOUND as int) * (BOUND as int),
                SCALE as int,
            );
            lemma_mul_sign_cases(self@, other@, q as int, negative);
        }
        if negative {
            -(q as i128)
        } else {
            q as i128
        }
    }

    /// `div_val` of a wide mantissa by a `Fixed` divisor, computed
    /// exactly; a zero divisor yields zero, as `div_val` does.
    pub fn wide_div(v: i128, d: Fixed) -> (r: i128)
        requires
            -(WIDE_BOUND as int) <= v as int <= WIDE_BOUND as int,
        ensures
            r as int == div_val(v as int, d@),
            -(WIDE_BOUND as int) * (SCALE as int) <= r as int <= (WIDE_BOUND as int) * (
            SCALE as int),
    {
        proof {
            use_type_invariant(d);
        }
        if d.m == 0 {
            return 0;
        }
        let vn: u128 = if v < 0 {
            (-v) as u128
        } else {
            v as u128
        };
        let dn: u128 = d.abs_m();
        assert((vn as int) * (SCALE as int) <= (WIDE_BOUND as int) * (SCALE as int) && (
        WIDE_BOUND as int) * (SCALE as int) <= u128::MAX as int) by (nonlinear_arith)
            requires
                vn <= WIDE_BOUND as u128,
        ;
        let p: u128 = vn * (SCALE as u128);
        let q: u128 = p / dn;
        let negative: bool = (v < 0) != d.is_negative();
        proof {
            lemma_abs_mul(v as int, SCALE as int);
            assert(p as int == abs_i(v as int * (SCALE as int)));
            assert(q as int == abs_i(v as int * (SCALE as int)) / abs_i(d@));
            vstd::arithmetic::div_mod::lemma_div_nonincreasing(p as int, dn as int);
            lemma_div_sign_cases(v as int, d@, q as int, negative);
        }
        if negative {
            -(q as i128)
        } else {
            q as i128
        }
    }

    /// Quotient of a wide mantissa by a `Fixed` divisor, as a `Fixed`;
    /// fails explicitly on a zero divisor or when the quotient leaves
    /// the representable range.
    pub fn checked_div_wide(v: i128, d: Fixed) -> (r: Result<Fixed, ArithError>)
        requires
            -2 * (WIDE_BOUND as int) <= v as int <= 2 * (WIDE_BOUND as int),
        ensures
            match r {
                Ok(f) => d@ != 0 && f@ == div_val(v as int, d@) && fits(div_val(v as int, d@)),
                Err(ArithError::DivisionByZero) => d@ == 0,
                Err(ArithError::Overflow) => d@ != 0 && !fits(div_val(v as int, d@)),
            },
    {
        proof {
            use_type_invariant(d);
        }
        if d.m == 0 {
            return Err(ArithError::DivisionByZero);
        }
        let vn: u128 = if v < 0 {
            (-v) as u128
        } else {
            v as u128
        };
        let dn: u128 = d.abs_m();
        assert((vn as int) * (SCALE as int) <= u128::MAX as int) by (nonlinear_arith)
            requires
                vn <= 2 * (WIDE_BOUND as u128),
        ;
        let p: u128 = vn * (SCALE as u128);
        let q: u128 = p / dn;
        let negative: bool = (v < 0) != d.is_negative();
        proof {
            lemma_abs_mul(v as int, SCALE as int);
            assert(p as int == abs_i(v as int * (SCALE as int)));
            assert(q as int == abs_i(v as int * (SCALE as int)) / abs_i(d@));
            lemma_div_sign_cases(v as int, d@, q as int, negative);
        }
        if q > BOUND as u128 {
            Err(ArithError::Overflow)
        } else {
            let m: i128 = if negative {
                -(q as i128)
            } else {
                q as i128
            };
            Ok(Fixed { m })
        }
    }

    /// Quotient, truncated toward zero; fails explicitly on a zero
    /// divisor or on overflow.
    pub fn checked_div(self, other: Fixed) -> (r: Result<Fixed, ArithError>)
        ensures
            match r {
                Ok(v) => other@ != 0 && v@ == div_val(self@, other@) && fits(
                    div_val(self@, other@),
                ),
                Err(ArithError::DivisionByZero) => other@ == 0,
                Err(ArithError::Overflow) => other@ != 0 && !fits(div_val(self@, other@)),
            },
    {
        if other.m == 0 {
            return Err(ArithError::DivisionByZero);
        }
        let an: u128 = self.abs_m();
        let bn: u128 = other.abs_m();
        assert((an as int) * (SCALE as int) <= u128::MAX as int) by (nonlinear_arith)
            requires
                an <= BOUND as u128,
        ;
        let p: u128 = an * (SCALE as u128);
        let q: u128 = p / bn;
        let negative: bool = (self.m < 0) != (other.m < 0);
        proof {
            use_type_invariant(self);
            use_type_invariant(other);
            lemma_abs_mul(self@, SCALE as int);
            assert(p as int == abs_i(self@ * (SCALE as int)));
            assert(q as int == abs_i(self@ * (SCALE as int)) / abs_i(other@));
        }
        if q > BOUND as u128 {
            proof {
                lemma_div_sign_cases(self@, other@, q as int, negative);
            }
            Err(ArithError::Overflow)
        } else {
            let m: i128 = if negative {
                -(q as i128)
            } else {
                q as i128
            };
            proof {
                lemma_div_sign_cases(self@, other@, q as int, negative);
            }
            Ok(Fixed { m })
        }
    }
}

/// A product of non-negative values is non-negative after scaling.
pub proof fn lemma_mul_val_nonneg(x: int, y: int)
    requires
        x >= 0,
        y >= 0,
    ensures
        mul_val(x, y) >= 0,
{
    assert(x * y >= 0) by (nonlinear_arith)
        requires
            x >= 0,
            y >= 0,
    ;
    vstd::arithmetic::div_mod::lemma_div_pos_is_pos(x * y, SCALE as int);
}

/// A quotient of a non-negative value by a positive one is non-negative.
pub proof fn lemma_div_val_nonneg(x: int, y: int)
    requires
        x >= 0,
        y > 0,
    ensures
        div_val(x, y) >= 0,
{
    assert(x * (SCALE as int) >= 0) by (nonlinear_arith)
        requires
            x >= 0,
    ;
    vstd::arithmetic::div_mod::lemma_div_pos_is_pos(x * (SCALE as int), y);
}

/// Magnitude bound on a scaled product.
pub proof fn lemma_mul_val_bound(x: int, y: int, bx: int, by: int)
    requires
        abs_i(x) <= bx,
        abs_i(y) <= by,
        0 <= bx,
        0 <= by,
    ensures
        abs_i(mul_val(x, y)) <= bx * by / (SCALE as int),
{
    lemma_abs_mul(x, y);
    assert(abs_i(x) * abs_i(y) <= bx * by) by (nonlinear_arith)
        requires
            0 <= abs_i(x) <= bx,
            0 <= abs_i(y) <= by,
    ;
    vstd::arithmetic::div_mod::lemma_div_is_ordered(abs_i(x * y), bx * by, SCALE as int);
    vstd::arithmetic::div_mod::lemma_div_pos_is_pos(abs_i(x * y), SCALE as int);
}

/// Magnitude bound on a scaled quotient with a divisor bounded below.
pub proof fn lemma_div_val_bound(x: int, y: int, bx: int, ymin: int)
    requires
        abs_i(x) <= bx,
        abs_i(y) >= ymin,
        ymin >= 1,
        bx >= 0,
    ensures
        abs_i(div_val(x, y)) <= bx * (SCALE as int) / ymin,
{
    lemma_abs_mul(x, SCALE as int);
    assert(abs_i(x) * (SCALE as int) <= bx * (SCALE as int)) by (nonlinear_arith)
        requires
            0 <= abs_i(x) <= bx,
    ;
    vstd::arithmetic::div_mod::lemma_div_is_ordered(
        abs_i(x * (SCALE as int)),
        bx * (SCALE as int),
        abs_i(y),
    );
    vstd::arithmetic::div_mod::lemma_div_is_ordered_by_denominator(
        bx * (SCALE as int),
        ymin,
        abs_i(y),
    );
    vstd::arithmetic::div_mod::lemma_div_pos_is_pos(abs_i(x * (SCALE as int)), abs_i(y));
}

proof fn lemma_mul_sign_cases(x: int, y: int, q: int, negative: bool)
    requires
        q == abs_i(x * y) / (SCALE as int),
        negative == ((x < 0) != (y < 0)),
    ensures
        mul_val(x, y) == if negative {
            -q
        } else {
            q
        },
{
    lemma_abs_mul(x, y);
    if x == 0 || y == 0 {
        assert(x * y == 0) by (nonlinear_arith)
            requires
                x == 0 || y == 0,
        ;
        assert(abs_i(0int) / (SCALE as int) == 0) by (nonlinear_arith);
    } else if negative {
        if x < 0 {
            assert(x * y < 0) by (nonlinear_arith)
                requires
                    x < 0,
                    y > 0,
            ;
        } else {
            assert(x * y < 0) by (nonlinear_arith)
                requires
                    x > 0,
                    y < 0,
            ;
        }
    } else {
        if x > 0 {
            assert(x * y > 0) by (nonlinear_arith)
                requires
                    x > 0,
                    y > 0,
            ;
        } else {
            assert(x * y > 0) by (nonlinear_arith)
                requires
                    x < 0,
                    y < 0,
            ;
        }
    }
}

proof fn lemma_div_sign_cases(x: int, y: int, q: int, negative: bool)
    requires
        y != 0,
        q == abs_i(x * (SCALE as int)) / abs_i(y),
        negative == ((x < 0) != (y < 0)),
    ensures
        div_val(x, y) == if negative {
            -q
        } else {
            q
        },
{
    lemma_abs_mul(x, SCALE as int);
    if x == 0 {
        assert(x * (SCALE as int) == 0) by (nonlinear_arith)
            requires
                x == 0,
        ;
        assert(abs_i(0int) / abs_i(y) == 0) by (nonlinear_arith)
            requires
                y != 0,
        ;
    } else {
        assert(x * (SCALE as int) > 0 <==> x > 0) by (nonlinear_arith)
            requires
                SCALE as int > 0,
                x != 0,
        ;
    }
}

} // verus!
