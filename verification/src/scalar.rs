//! Terminal scalar: a whole number of terminal cells, or an unbounded extent.
//!
//! Coordinates (column / row indices) and constraints (region sizes that may
//! be unbounded) are both measured with [`TermScalar`].  Finite values are
//! whole numbers of cells; `Infinity` means "unbounded" and behaves like
//! mathematical infinity: `∞ + 5 == ∞`, `∞ - 5 == ∞`, `min(5, ∞) == 5` and
//! `max(5, ∞) == ∞`.
//!
//! Arithmetic is total.  Operations without a meaningful result
//! (`∞ - ∞`, `∞ · 0`, `0 / 0`, `∞ / ∞`, `∞ % x`, `x % 0`) give `Undefined`,
//! which propagates through further arithmetic and is ignored by
//! [`TermScalar::min`] and [`TermScalar::max`].  Comparisons are only defined
//! between numbers (values other than `Undefined`).  Whole-number results
//! beyond the `i64` range saturate at its bounds, and quotients of whole
//! numbers round toward zero.

use vstd::prelude::*;

verus! {

/// A terminal scalar value: a signed whole number of cells, ±infinity, or
/// the undefined result of an operation such as `∞ - ∞`.
#[derive(Clone, Copy, PartialEq, Eq, Structural, Debug, Hash)]
pub enum TermScalar {
    /// Negative infinity.
    NegInfinity,
    /// A finite number of cells.
    Finite(i64),
    /// Positive infinity: an unbounded extent.
    Infinity,
    /// The result of an operation without a meaningful value.
    Undefined,
}

/// Truncating integer division (rounds toward zero).
pub open spec fn trunc_div(x: int, y: int) -> int {
    let q: int = (vstd::math::abs(x) / vstd::math::abs(y)) as int;
    if (x < 0) != (y < 0) {
        -q
    } else {
        q
    }
}

/// The remainder that goes with [`trunc_div`]; it has the sign of `x`.
pub open spec fn trunc_rem(x: int, y: int) -> int {
    x - y * trunc_div(x, y)
}

/// `v` clamped to the `i64` range.
pub open spec fn sat(v: int) -> i64 {
    if v < i64::MIN {
        i64::MIN
    } else if v > i64::MAX {
        i64::MAX
    } else {
        v as i64
    }
}

/// The sign of an integer: -1, 0 or 1.
pub open spec fn int_sign(v: int) -> int {
    if v > 0 {
        1
    } else if v < 0 {
        -1
    } else {
        0
    }
}

impl TermScalar {
    // ── Model ────────────────────────────────────────────────────────────

    /// Whether the value is finite.
    pub open spec fn is_fin(self) -> bool {
        self is Finite
    }

    /// Whether the value is a number: finite or infinite, not `Undefined`.
    pub open spec fn is_num(self) -> bool {
        !(self is Undefined)
    }

    /// The finite value (0 otherwise).
    pub open spec fn val(self) -> int {
        match self {
            TermScalar::Finite(v) => v as int,
            _ => 0,
        }
    }

    /// The finite scalar holding `v`, saturated to the `i64` range.
    pub open spec fn fin(v: int) -> TermScalar {
        TermScalar::Finite(sat(v))
    }

    /// The position of a number's kind in the order: -1, 0 or 1.
    pub open spec fn rank(self) -> int {
        match self {
            TermScalar::NegInfinity => -1,
            TermScalar::Infinity => 1,
            _ => 0,
        }
    }

    /// `self <= other` in the order `-∞ < finite < ∞` (for numbers).
    pub open spec fn le_spec(self, other: TermScalar) -> bool {
        self.rank() < other.rank() || (self.rank() == other.rank() && self.val() <= other.val())
    }

    /// `self < other` (for numbers).
    pub open spec fn lt_spec(self, other: TermScalar) -> bool {
        !other.le_spec(self)
    }

    /// The sign of a number: -1, 0 or 1.
    pub open spec fn sign(self) -> int {
        if self.rank() != 0 {
            self.rank()
        } else {
            int_sign(self.val())
        }
    }

    /// The infinity with the sign of `s`.
    pub open spec fn inf_of_sign(s: int) -> TermScalar {
        if s >= 0 {
            TermScalar::Infinity
        } else {
            TermScalar::NegInfinity
        }
    }

    /// The sum.
    pub open spec fn add_spec(self, other: TermScalar) -> TermScalar {
        if !self.is_num() || !other.is_num() || (self is Infinity && other is NegInfinity) || (
        self is NegInfinity && other is Infinity) {
            TermScalar::Undefined
        } else if self.is_fin() && other.is_fin() {
            TermScalar::fin(self.val() + other.val())
        } else if self is Infinity || other is Infinity {
            TermScalar::Infinity
        } else {
            TermScalar::NegInfinity
        }
    }

    /// The negation.
    pub open spec fn neg_spec(self) -> TermScalar {
        match self {
            TermScalar::NegInfinity => TermScalar::Infinity,
            TermScalar::Finite(v) => TermScalar::fin(-v),
            TermScalar::Infinity => TermScalar::NegInfinity,
            TermScalar::Undefined => TermScalar::Undefined,
        }
    }

    /// The difference.
    pub open spec fn sub_spec(self, other: TermScalar) -> TermScalar {
        if !self.is_num() || !other.is_num() || (self is Infinity && other is Infinity) || (
        self is NegInfinity && other is NegInfinity) {
            TermScalar::Undefined
        } else if self.is_fin() && other.is_fin() {
            TermScalar::fin(self.val() - other.val())
        } else if self is Infinity || other is NegInfinity {
            TermScalar::Infinity
        } else {
            TermScalar::NegInfinity
        }
    }

    /// The product.
    pub open spec fn mul_spec(self, other: TermScalar) -> TermScalar {
        if !self.is_num() || !other.is_num() {
            TermScalar::Undefined
        } else if self.is_fin() && other.is_fin() {
            TermScalar::fin(self.val() * other.val())
        } else if self.sign() == 0 || other.sign() == 0 {
            TermScalar::Undefined
        } else {
            TermScalar::inf_of_sign(self.sign() * other.sign())
        }
    }

    /// The quotient: whole-number quotients round toward zero, a nonzero
    /// value divided by zero is the infinity of its sign, and a finite value
    /// divided by an infinity is zero.
    pub open spec fn div_spec(self, other: TermScalar) -> TermScalar {
        if !self.is_num() || !other.is_num() || (!self.is_fin() && !other.is_fin()) || (
        self.sign() == 0 && other.sign() == 0) {
            TermScalar::Undefined
        } else if self.is_fin() && other.is_fin() {
            if other.val() == 0 {
                TermScalar::inf_of_sign(self.sign())
            } else {
                TermScalar::fin(trunc_div(self.val(), other.val()))
            }
        } else if self.is_fin() {
            TermScalar::Finite(0)
        } else {
            TermScalar::inf_of_sign(if other.sign() < 0 { -self.sign() } else { self.sign() })
        }
    }

    /// The remainder: it has the sign of `self`, and `x % ∞ == x`.
    pub open spec fn rem_spec(self, other: TermScalar) -> TermScalar {
        if !self.is_fin() || !other.is_num() || other.sign() == 0 {
            TermScalar::Undefined
        } else if other.is_fin() {
            TermScalar::fin(trunc_rem(self.val(), other.val()))
        } else {
            self
        }
    }

    /// The smaller of two values; `Undefined` is ignored.
    pub open spec fn min_spec(self, other: TermScalar) -> TermScalar {
        if !self.is_num() {
            other
        } else if !other.is_num() {
            self
        } else if self.le_spec(other) {
            self
        } else {
            other
        }
    }

    /// The larger of two values; `Undefined` is ignored.
    pub open spec fn max_spec(self, other: TermScalar) -> TermScalar {
        if !self.is_num() {
            other
        } else if !other.is_num() {
            self
        } else if self.le_spec(other) {
            other
        } else {
            self
        }
    }

    /// The absolute value.
    pub open spec fn abs_spec(self) -> TermScalar {
        match self {
            TermScalar::NegInfinity => TermScalar::Infinity,
            TermScalar::Finite(v) => TermScalar::fin(vstd::math::abs(v as int) as int),
            _ => self,
        }
    }

    /// The value read as an `i32`: saturating at the `i32` bounds, with
    /// `Undefined` read as 0.
    pub open spec fn get_spec(self) -> i32 {
        match self {
            TermScalar::NegInfinity => i32::MIN,
            TermScalar::Infinity => i32::MAX,
            TermScalar::Undefined => 0,
            TermScalar::Finite(v) => if v < i32::MIN {
                i32::MIN
            } else if v > i32::MAX {
                i32::MAX
            } else {
                v as i32
            },
        }
    }

    // ── Constants ────────────────────────────────────────────────────────

    /// The additive identity.
    pub fn zero() -> (r: TermScalar)
        ensures
            r == TermScalar::Finite(0),
    {
        TermScalar::Finite(0)
    }

    /// One cell.
    pub fn one() -> (r: TermScalar)
        ensures
            r == TermScalar::Finite(1),
    {
        TermScalar::Finite(1)
    }

    /// Positive infinity: "unbounded".
    pub fn infinity() -> (r: TermScalar)
        ensures
            r == TermScalar::Infinity,
    {
        TermScalar::Infinity
    }

    /// Negative infinity.
    pub fn neg_infinity() -> (r: TermScalar)
        ensures
            r == TermScalar::NegInfinity,
    {
        TermScalar::NegInfinity
    }

    // ── Construction / extraction ────────────────────────────────────────

    /// Create a finite scalar from an `i32`.
    pub fn new(n: i32) -> (r: TermScalar)
        ensures
            r == TermScalar::Finite(n as i64),
    {
        TermScalar::Finite(n as i64)
    }

    /// Extract the value as an `i32`, saturating at the bounds; the
    /// infinities give `i32::MAX` and `i32::MIN`, `Undefined` gives 0.
    pub fn get(self) -> (r: i32)
        ensures
            r == self.get_spec(),
    {
        match self {
            TermScalar::NegInfinity => i32::MIN,
            TermScalar::Infinity => i32::MAX,
            TermScalar::Undefined => 0,
            TermScalar::Finite(v) => if v < i32::MIN as i64 {
                i32::MIN
            } else if v > i32::MAX as i64 {
                i32::MAX
            } else {
                v as i32
            },
        }
    }

    /// Round to the nearest whole number: every value is already whole.
    pub fn round(self) -> (r: TermScalar)
        ensures
            r == self,
    {
        self
    }

    /// Round toward positive infinity: every value is already whole.
    pub fn ceil(self) -> (r: TermScalar)
        ensures
            r == self,
    {
        self
    }

    /// Round toward negative infinity: every value is already whole.
    pub fn floor(self) -> (r: TermScalar)
        ensures
            r == self,
    {
        self
    }

    /// Absolute value.
    pub fn abs(self) -> (r: TermScalar)
        ensures
            r == self.abs_spec(),
    {
        match self {
            TermScalar::NegInfinity => TermScalar::Infinity,
            TermScalar::Finite(v) => if v == i64::MIN {
                TermScalar::Finite(i64::MAX)
            } else if v < 0 {
                TermScalar::Finite(-v)
            } else {
                TermScalar::Finite(v)
            },
            _ => self,
        }
    }

    // ── Predicates ───────────────────────────────────────────────────────

    /// Whether this is a finite value.
    pub fn is_finite(self) -> (r: bool)
        ensures
            r == self.is_fin(),
    {
        match self {
            TermScalar::Finite(_) => true,
            _ => false,
        }
    }

    /// Whether this is exactly zero.
    pub fn is_zero(self) -> (r: bool)
        ensures
            r == (self == TermScalar::Finite(0)),
    {
        match self {
            TermScalar::Finite(v) => v == 0,
            _ => false,
        }
    }

    /// Whether this value is greater than zero.
    pub fn is_positive(self) -> (r: bool)
        ensures
            r == (self.is_num() && self.sign() > 0),
    {
        match self {
            TermScalar::Finite(v) => v > 0,
            TermScalar::Infinity => true,
            _ => false,
        }
    }

    /// Whether this value is less than zero.
    pub fn is_negative(self) -> (r: bool)
        ensures
            r == (self.is_num() && self.sign() < 0),
    {
        match self {
            TermScalar::Finite(v) => v < 0,
            TermScalar::NegInfinity => true,
            _ => false,
        }
    }

    // ── Comparison ───────────────────────────────────────────────────────

    /// `self <= other`.  `Undefined` has no place in the order, so neither
    /// side may be `Undefined`.
    pub fn le(self, other: TermScalar) -> (r: bool)
        requires
            self.is_num(),
            other.is_num(),
        ensures
            r == self.le_spec(other),
    {
        match (self, other) {
            (TermScalar::Finite(a), TermScalar::Finite(b)) => a <= b,
            (TermScalar::NegInfinity, _) => true,
            (_, TermScalar::Infinity) => true,
            _ => false,
        }
    }

    /// `self < other`.
    pub fn lt(self, other: TermScalar) -> (r: bool)
        requires
            self.is_num(),
            other.is_num(),
        ensures
            r == self.lt_spec(other),
    {
        !other.le(self)
    }

    /// `self >= other`.
    pub fn ge(self, other: TermScalar) -> (r: bool)
        requires
            self.is_num(),
            other.is_num(),
        ensures
            r == other.le_spec(self),
    {
        other.le(self)
    }

    /// `self > other`.
    pub fn gt(self, other: TermScalar) -> (r: bool)
        requires
            self.is_num(),
            other.is_num(),
        ensures
            r == other.lt_spec(self),
    {
        !self.le(other)
    }

    // ── min / max ────────────────────────────────────────────────────────

    /// The smaller of the two values.
    pub fn min(self, other: TermScalar) -> (r: TermScalar)
        ensures
            r == self.min_spec(other),
    {
        if matches!(self, TermScalar::Undefined) {
            other
        } else if matches!(other, TermScalar::Undefined) {
            self
        } else if self.le(other) {
            self
        } else {
            other
        }
    }

    /// The larger of the two values.
    pub fn max(self, other: TermScalar) -> (r: TermScalar)
        ensures
            r == self.max_spec(other),
    {
        if matches!(self, TermScalar::Undefined) {
            other
        } else if matches!(other, TermScalar::Undefined) {
            self
        } else if self.le(other) {
            other
        } else {
            self
        }
    }

    /// Clamp to `[lo, hi]`.
    pub fn clamp(self, lo: TermScalar, hi: TermScalar) -> (r: TermScalar)
        requires
            lo.is_num(),
            hi.is_num(),
            lo.le_spec(hi),
        ensures
            r == (if self.is_num() { self.max_spec(lo).min_spec(hi) } else { self }),
    {
        if matches!(self, TermScalar::Undefined) {
            self
        } else {
            self.max(lo).min(hi)
        }
    }

    // ── Arithmetic ───────────────────────────────────────────────────────

    /// The sum.
    pub fn add(self, other: TermScalar) -> (r: TermScalar)
        ensures
            r == self.add_spec(other),
    {
        match (self, other) {
            (TermScalar::Undefined, _) => TermScalar::Undefined,
            (_, TermScalar::Undefined) => TermScalar::Undefined,
            (TermScalar::Infinity, TermScalar::NegInfinity) => TermScalar::Undefined,
            (TermScalar::NegInfinity, TermScalar::Infinity) => TermScalar::Undefined,
            (TermScalar::Finite(a), TermScalar::Finite(b)) => TermScalar::Finite(
                sat_i128(a as i128 + b as i128),
            ),
            (TermScalar::Infinity, _) => TermScalar::Infinity,
            (_, TermScalar::Infinity) => TermScalar::Infinity,
            _ => TermScalar::NegInfinity,
        }
    }

    /// The negation.
    pub fn neg(self) -> (r: TermScalar)
        ensures
            r == self.neg_spec(),
    {
        match self {
            TermScalar::NegInfinity => TermScalar::Infinity,
            TermScalar::Finite(v) => TermScalar::Finite(sat_i128(0 - v as i128)),
            TermScalar::Infinity => TermScalar::NegInfinity,
            TermScalar::Undefined => TermScalar::Undefined,
        }
    }

    /// The difference.
    pub fn sub(self, other: TermScalar) -> (r: TermScalar)
        ensures
            r == self.sub_spec(other),
    {
        match (self, other) {
            (TermScalar::Undefined, _) => TermScalar::Undefined,
            (_, TermScalar::Undefined) => TermScalar::Undefined,
            (TermScalar::Infinity, TermScalar::Infinity) => TermScalar::Undefined,
            (TermScalar::NegInfinity, TermScalar::NegInfinity) => TermScalar::Undefined,
            (TermScalar::Finite(a), TermScalar::Finite(b)) => TermScalar::Finite(
                sat_i128(a as i128 - b as i128),
            ),
            (TermScalar::Infinity, _) => TermScalar::Infinity,
            (_, TermScalar::NegInfinity) => TermScalar::Infinity,
            _ => TermScalar::NegInfinity,
        }
    }

    /// The product.
    pub fn mul(self, other: TermScalar) -> (r: TermScalar)
        ensures
            r == self.mul_spec(other),
    {
        match (self, other) {
            (TermScalar::Undefined, _) => TermScalar::Undefined,
            (_, TermScalar::Undefined) => TermScalar::Undefined,
            (TermScalar::Finite(a), TermScalar::Finite(b)) => {
                proof {
                    lemma_i64_product_bound(a as int, b as int);
                }
                TermScalar::Finite(sat_i128(a as i128 * b as i128))
            },
            _ => {
                if self.is_zero() || other.is_zero() {
                    TermScalar::Undefined
                } else if self.is_positive() == other.is_positive() {
                    TermScalar::Infinity
                } else {
                    TermScalar::NegInfinity
                }
            },
        }
    }

    /// The quotient; whole-number quotients round toward zero.
    pub fn div(self, other: TermScalar) -> (r: TermScalar)
        ensures
            r == self.div_spec(other),
    {
        match (self, other) {
            (TermScalar::Undefined, _) => TermScalar::Undefined,
            (_, TermScalar::Undefined) => TermScalar::Undefined,
            (TermScalar::Finite(a), TermScalar::Finite(b)) => {
                if b == 0 {
                    if a > 0 {
                        TermScalar::Infinity
                    } else if a < 0 {
                        TermScalar::NegInfinity
                    } else {
                        TermScalar::Undefined
                    }
                } else {
                    TermScalar::Finite(trunc_div_i64(a, b))
                }
            },
            (TermScalar::Finite(_), _) => TermScalar::Finite(0),
            (_, TermScalar::Finite(_)) => {
                if self.is_positive() == !other.is_negative() {
                    TermScalar::Infinity
                } else {
                    TermScalar::NegInfinity
                }
            },
            _ => TermScalar::Undefined,
        }
    }

    /// The remainder, with the sign of `self`.
    pub fn rem(self, other: TermScalar) -> (r: TermScalar)
        ensures
            r == self.rem_spec(other),
    {
        match (self, other) {
            (TermScalar::Finite(a), TermScalar::Finite(b)) => {
                if b == 0 {
                    return TermScalar::Undefined;
                }
                proof {
                    lemma_trunc_rem_bounds(a as int, b as int);
                }
                if b == 1 || b == -1 {
                    return TermScalar::Finite(0);
                }
                let q = trunc_div_i64(a, b);
                proof {
                    assert(sat(trunc_div(a as int, b as int)) == trunc_div(a as int, b as int));
                    let qi = q as int;
                    let bi = b as int;
                    assert(-0x1_0000_0000_0000_0000_0000_0000_0000_0000 <= bi * qi
                        <= 0x1_0000_0000_0000_0000_0000_0000_0000_0000) by (nonlinear_arith)
                        requires
                            -0x8000_0000_0000_0000 <= qi <= 0x8000_0000_0000_0000,
                            -0x8000_0000_0000_0000 <= bi <= 0x8000_0000_0000_0000,
                    ;
                }
                TermScalar::Finite((a as i128 - (b as i128) * (q as i128)) as i64)
            },
            (TermScalar::Finite(_), TermScalar::Infinity) => self,
            (TermScalar::Finite(_), TermScalar::NegInfinity) => self,
            _ => TermScalar::Undefined,
        }
    }
}

/// `v` clamped to the `i64` range.
fn sat_i128(v: i128) -> (r: i64)
    ensures
        r == sat(v as int),
{
    if v < i64::MIN as i128 {
        i64::MIN
    } else if v > i64::MAX as i128 {
        i64::MAX
    } else {
        v as i64
    }
}

proof fn lemma_i64_product_bound(a: int, b: int)
    requires
        i64::MIN <= a <= i64::MAX,
        i64::MIN <= b <= i64::MAX,
    ensures
        -0x4000_0000_0000_0000_0000_0000_0000_0000 <= a * b <= 0x4000_0000_0000_0000_0000_0000_0000_0000,
{
    assert(-0x4000_0000_0000_0000_0000_0000_0000_0000 <= a * b
        <= 0x4000_0000_0000_0000_0000_0000_0000_0000) by (nonlinear_arith)
        requires
            -0x8000_0000_0000_0000 <= a <= 0x8000_0000_0000_0000,
            -0x8000_0000_0000_0000 <= b <= 0x8000_0000_0000_0000,
    ;
}

/// `|trunc_div(x, y)| <= |x|` and the remainder is smaller than `|y|`.
proof fn lemma_trunc_rem_bounds(x: int, y: int)
    requires
        y != 0,
        i64::MIN <= x <= i64::MAX,
        i64::MIN <= y <= i64::MAX,
    ensures
        vstd::math::abs(trunc_div(x, y)) <= vstd::math::abs(x),
        vstd::math::abs(trunc_rem(x, y)) < vstd::math::abs(y),
        i64::MIN <= trunc_rem(x, y) <= i64::MAX,
        (y == 1 || y == -1) ==> trunc_rem(x, y) == 0,
        vstd::math::abs(y) >= 2 ==> 2 * vstd::math::abs(trunc_div(x, y)) <= vstd::math::abs(x),
{
    let ax = vstd::math::abs(x);
    let ay = vstd::math::abs(y);
    let q: int = (ax / ay) as int;
    assert(q <= ax) by (nonlinear_arith)
        requires
            ax >= 0,
            ay >= 1,
            q == ax / ay,
    ;
    assert(ax - ay * q < ay && ax - ay * q >= 0) by (nonlinear_arith)
        requires
            ax >= 0,
            ay >= 1,
            q == ax / ay,
    ;
    if ay == 1 {
        assert(q == ax) by (nonlinear_arith)
            requires
                ay == 1,
                q == ax / ay,
        ;
    }
    if ay >= 2 {
        assert(2 * q <= ax) by (nonlinear_arith)
            requires
                ay >= 2,
                ax >= 0,
                q == ax / ay,
        ;
    }
    if (x < 0) != (y < 0) {
        assert(y * trunc_div(x, y) == -(y * q)) by (nonlinear_arith)
            requires
                trunc_div(x, y) == -q,
        ;
    } else {
        assert(trunc_div(x, y) == q);
    }
    if x >= 0 && y > 0 {
        assert(y * q == ay * q);
    } else if x >= 0 && y < 0 {
        assert(y * q == -(ay * q)) by (nonlinear_arith)
            requires
                ay == -y,
        ;
    } else if x < 0 && y > 0 {
        assert(y * q == ay * q);
    } else {
        assert(y * q == -(ay * q)) by (nonlinear_arith)
            requires
                ay == -y,
        ;
    }
}

/// Truncating division of two `i64` values, saturating `i64::MIN / -1`.
fn trunc_div_i64(a: i64, b: i64) -> (r: i64)
    requires
        b != 0,
    ensures
        r == sat(trunc_div(a as int, b as int)),
{
    let ua: u64 = if a >= 0 {
        a as u64
    } else {
        (0i128 - a as i128) as u64
    };
    let ub: u64 = if b >= 0 {
        b as u64
    } else {
        (0i128 - b as i128) as u64
    };
    let q = ua / ub;
    proof {
        assert(q <= ua) by (nonlinear_arith)
            requires
                ub >= 1,
                q == ua / ub,
        ;
    }
    if (a < 0) != (b < 0) {
        (0i128 - q as i128) as i64
    } else {
        sat_i128(q as i128)
    }
}

// ── Sequences ────────────────────────────────────────────────────────────

/// The largest of a non-empty sequence of numbers (the first of the
/// sequence for an empty one is meaningless).
pub open spec fn seq_max(s: Seq<TermScalar>) -> TermScalar
    decreases s.len(),
{
    if s.len() <= 1 {
        s[0]
    } else {
        seq_max(s.drop_last()).max_spec(s.last())
    }
}

/// The sum of a sequence, added from the left starting at zero.
pub open spec fn seq_sum(s: Seq<TermScalar>) -> TermScalar
    decreases s.len(),
{
    if s.len() == 0 {
        TermScalar::Finite(0)
    } else {
        seq_sum(s.drop_last()).add_spec(s.last())
    }
}

/// Whether every element is a number.
pub open spec fn all_num(s: Seq<TermScalar>) -> bool {
    forall|i: int| 0 <= i < s.len() ==> (#[trigger] s[i]).is_num()
}

/// The largest element of a non-empty sequence of numbers is a number.
pub proof fn lemma_seq_max_num(s: Seq<TermScalar>)
    requires
        s.len() > 0,
        all_num(s),
    ensures
        seq_max(s).is_num(),
    decreases s.len(),
{
    if s.len() > 1 {
        lemma_seq_max_num(s.drop_last());
    }
}

/// The largest of numbers, computed from the left.
pub fn max_of(v: &Vec<TermScalar>) -> (r: TermScalar)
    requires
        v@.len() > 0,
        all_num(v@),
    ensures
        r == seq_max(v@),
        r.is_num(),
{
    let mut m = v[0];
    let mut i: usize = 1;
    assert(v@.subrange(0, 1).drop_last() =~= Seq::<TermScalar>::empty());
    while i < v.len()
        invariant
            1 <= i <= v@.len(),
            all_num(v@),
            m == seq_max(v@.subrange(0, i as int)),
            m.is_num(),
        decreases v@.len() - i,
    {
        proof {
            assert(v@.subrange(0, i + 1).drop_last() =~= v@.subrange(0, i as int));
            lemma_seq_max_num(v@.subrange(0, i as int));
        }
        m = m.max(v[i]);
        i = i + 1;
    }
    assert(v@.subrange(0, v@.len() as int) =~= v@);
    m
}

/// The sum of a vector, added from the left starting at zero.
pub fn sum_of(v: &Vec<TermScalar>) -> (r: TermScalar)
    ensures
        r == seq_sum(v@),
{
    let mut s = TermScalar::zero();
    let mut i: usize = 0;
    while i < v.len()
        invariant
            i <= v@.len(),
            s == seq_sum(v@.subrange(0, i as int)),
        decreases v@.len() - i,
    {
        proof {
            assert(v@.subrange(0, i + 1).drop_last() =~= v@.subrange(0, i as int));
        }
        s = s.add(v[i]);
        i = i + 1;
    }
    assert(v@.subrange(0, v@.len() as int) =~= v@);
    s
}

/// The offsets at which tracks of the given extents start, followed by
/// where the last one ends: zero, then each running sum.
pub fn points(extents: &Vec<TermScalar>) -> (r: Vec<TermScalar>)
    ensures
        r@.len() == extents@.len() + 1,
        forall|i: int| 0 <= i <= extents@.len() ==> #[trigger] r@[i] == seq_sum(extents@.take(i)),
{
    let mut out: Vec<TermScalar> = Vec::new();
    let mut offset = TermScalar::zero();
    offset = offset.add(TermScalar::zero());
    out.push(offset);
    assert(extents@.take(0) =~= Seq::<TermScalar>::empty());
    let mut i: usize = 0;
    while i < extents.len()
        invariant
            i <= extents@.len(),
            out@.len() == i + 1,
            offset == seq_sum(extents@.take(i as int)),
            forall|k: int| 0 <= k <= i ==> #[trigger] out@[k] == seq_sum(extents@.take(k)),
        decreases extents@.len() - i,
    {
        proof {
            assert(extents@.take(i + 1).drop_last() =~= extents@.take(i as int));
        }
        offset = offset.add(extents[i]);
        out.push(offset);
        i = i + 1;
    }
    out
}

// ── Laws ─────────────────────────────────────────────────────────────────

/// Infinity behaves like mathematical infinity under arithmetic with finite
/// values: `∞ + x == ∞`, `x + ∞ == ∞`, `∞ - x == ∞`, `x - ∞ == -∞`.
pub proof fn law_infinity_absorbs_finite(x: TermScalar)
    requires
        x.is_fin(),
    ensures
        TermScalar::Infinity.add_spec(x) == TermScalar::Infinity,
        x.add_spec(TermScalar::Infinity) == TermScalar::Infinity,
        TermScalar::Infinity.sub_spec(x) == TermScalar::Infinity,
        x.sub_spec(TermScalar::Infinity) == TermScalar::NegInfinity,
{
}

/// `min(x, ∞) == x` and `max(x, ∞) == ∞` for every number `x`; likewise
/// `max(x, -∞) == x` and `min(x, -∞) == -∞`.
pub proof fn law_min_max_with_infinity(x: TermScalar)
    requires
        x.is_num(),
    ensures
        x.min_spec(TermScalar::Infinity) == x,
        x.max_spec(TermScalar::Infinity) == TermScalar::Infinity,
        x.max_spec(TermScalar::NegInfinity) == x,
        x.min_spec(TermScalar::NegInfinity) == TermScalar::NegInfinity,
{
}

/// `<=` is a total order on numbers.
pub proof fn law_le_total_order(a: TermScalar, b: TermScalar, c: TermScalar)
    requires
        a.is_num(),
        b.is_num(),
        c.is_num(),
    ensures
        a.le_spec(a),
        a.le_spec(b) || b.le_spec(a),
        a.le_spec(b) && b.le_spec(a) ==> a == b,
        a.le_spec(b) && b.le_spec(c) ==> a.le_spec(c),
{
}

/// `min` and `max` pick one of their arguments, bound it from the right
/// side, and do not depend on argument order.
pub proof fn law_min_max(a: TermScalar, b: TermScalar)
    requires
        a.is_num(),
        b.is_num(),
    ensures
        a.min_spec(b) == b.min_spec(a),
        a.max_spec(b) == b.max_spec(a),
        a.min_spec(b).le_spec(a) && a.min_spec(b).le_spec(b),
        a.le_spec(a.max_spec(b)) && b.le_spec(a.max_spec(b)),
        a.min_spec(b) == a || a.min_spec(b) == b,
        a.max_spec(b) == a || a.max_spec(b) == b,
{
}

/// Addition is commutative and zero is its identity.
pub proof fn law_add_commutative_identity(a: TermScalar, b: TermScalar)
    ensures
        a.add_spec(b) == b.add_spec(a),
        a.add_spec(TermScalar::Finite(0)) == a,
{
}

/// Subtracting what was added gives back the finite value, where the sum
/// stays in range.
pub proof fn law_add_sub_inverse(a: TermScalar, b: TermScalar)
    requires
        a.is_fin(),
        b.is_fin(),
        i64::MIN <= a.val() + b.val() <= i64::MAX,
    ensures
        a.add_spec(b).sub_spec(b) == a,
{
}

/// `Undefined` propagates through arithmetic and is ignored by `min`/`max`.
pub proof fn law_undefined_propagates(x: TermScalar)
    ensures
        TermScalar::Undefined.add_spec(x) == TermScalar::Undefined,
        x.sub_spec(TermScalar::Undefined) == TermScalar::Undefined,
        TermScalar::Undefined.mul_spec(x) == TermScalar::Undefined,
        TermScalar::Undefined.max_spec(x) == x,
        TermScalar::Undefined.min_spec(x) == x,
        TermScalar::Infinity.sub_spec(TermScalar::Infinity) == TermScalar::Undefined,
{
}


// ── Conversions ──────────────────────────────────────────────────────────

impl From<i32> for TermScalar {
    /// The finite scalar holding `n` (as [`TermScalar::new`] gives it).
    fn from(n: i32) -> (r: TermScalar) {
        TermScalar::new(n)
    }
}

impl vstd::std_specs::convert::FromSpecImpl<i32> for TermScalar {
    open spec fn obeys_from_spec() -> bool {
        true
    }

    open spec fn from_spec(v: i32) -> TermScalar {
        TermScalar::Finite(v as i64)
    }
}

impl From<TermScalar> for i32 {
    /// The scalar read as an `i32` (as [`TermScalar::get`] reads it).
    fn from(s: TermScalar) -> (r: i32) {
        s.get()
    }
}

impl vstd::std_specs::convert::FromSpecImpl<TermScalar> for i32 {
    open spec fn obeys_from_spec() -> bool {
        true
    }

    open spec fn from_spec(v: TermScalar) -> i32 {
        v.get_spec()
    }
}

/// Construction from an `i32` and extraction as an `i32` are inverse: a
/// scalar made from `n`, by `new` or `from`, reads back as `n`.
pub proof fn law_i32_round_trip(n: i32)
    ensures
        TermScalar::Finite(n as i64).get_spec() == n,
        <i32 as vstd::std_specs::convert::FromSpec<TermScalar>>::from_spec(
            <TermScalar as vstd::std_specs::convert::FromSpec<i32>>::from_spec(n),
        ) == n,
{
}

} // verus!
