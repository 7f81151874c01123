//! The scaled-rating vector type and its arithmetic.
//!
//! A `ScaledRatingData` is a (rating, deviation, volatility) triple in the
//! rating algorithm's internal scale, held as fixed-point integers: one unit
//! is `1 / SCALE` of that scale.  The algebra is component-wise; the total
//! order ranks higher ratings first and, among equal ratings, higher
//! confidence (smaller deviation, then smaller volatility) first.

use vstd::prelude::*;

verus! {

use core::cmp::Ordering;

/// Fixed-point units per 1.0 of the rating algorithm's internal scale.
pub const SCALE: i64 = 1_000_000;

/// Largest magnitude a rating component may take: `(1 << 61) - 1`.
///
/// Keeping components within a quarter of the `i64` range means sums and
/// differences of up to four components never overflow, which is what the
/// range-overlap arithmetic needs.
pub const MAX_MAGNITUDE: i64 = 0x1fff_ffff_ffff_ffff;

/// Absolute value over the unbounded integers.
pub open spec fn abs_int(x: int) -> int {
    if x < 0 {
        -x
    } else {
        x
    }
}

/// Truncated (round-toward-zero) division, with a zero divisor mapped to
/// zero.  This is the quotient the engine's fixed-point divisions produce.
pub open spec fn tdiv(a: int, b: int) -> int {
    if b == 0 {
        0
    } else if (a < 0) == (b < 0) {
        abs_int(a) / abs_int(b)
    } else {
        -(abs_int(a) / abs_int(b))
    }
}

/// Fixed-point product of two components: `a * b` rescaled back into units.
pub open spec fn fmul(a: int, b: int) -> int {
    tdiv(a * b, SCALE as int)
}

/// A component within the engine's finite domain.
pub open spec fn in_magnitude(x: int) -> bool {
    -MAX_MAGNITUDE <= x <= MAX_MAGNITUDE
}

/// A plain (rating, deviation, volatility) vector in the rating algorithm's
/// internal scale, in fixed-point units of `1 / SCALE`.
#[derive(Clone, Copy, Debug, PartialEq, Eq, Structural)]
pub struct ScaledRatingData {
    pub rating: i64,
    pub deviation: i64,
    pub volatility: i64,
}

impl ScaledRatingData {
    /// All components within the engine's finite domain.
    pub open spec fn wf(self) -> bool {
        in_magnitude(self.rating as int) && in_magnitude(self.deviation as int)
            && in_magnitude(self.volatility as int)
    }

    /// The zero vector.
    pub fn zero() -> (r: Self)
        ensures
            r.rating == 0 && r.deviation == 0 && r.volatility == 0,
            r.wf(),
    {
        ScaledRatingData { rating: 0, deviation: 0, volatility: 0 }
    }

    /// Component-wise absolute value.
    pub fn abs(self) -> (r: Self)
        requires
            self.wf(),
        ensures
            r.rating == abs_int(self.rating as int),
            r.deviation == abs_int(self.deviation as int),
            r.volatility == abs_int(self.volatility as int),
            r.wf(),
    {
        ScaledRatingData {
            rating: abs_component(self.rating),
            deviation: abs_component(self.deviation),
            volatility: abs_component(self.volatility),
        }
    }

    /// Component-wise sum.
    pub fn add(self, rhs: Self) -> (r: Self)
        requires
            in_magnitude(self.rating + rhs.rating),
            in_magnitude(self.deviation + rhs.deviation),
            in_magnitude(self.volatility + rhs.volatility),
        ensures
            r.rating == self.rating + rhs.rating,
            r.deviation == self.deviation + rhs.deviation,
            r.volatility == self.volatility + rhs.volatility,
            r.wf(),
    {
        ScaledRatingData {
            rating: self.rating + rhs.rating,
            deviation: self.deviation + rhs.deviation,
            volatility: self.volatility + rhs.volatility,
        }
    }

    /// Component-wise difference.
    pub fn sub(self, rhs: Self) -> (r: Self)
        requires
            in_magnitude(self.rating - rhs.rating),
            in_magnitude(self.deviation - rhs.deviation),
            in_magnitude(self.volatility - rhs.volatility),
        ensures
            r.rating == self.rating - rhs.rating,
            r.deviation == self.deviation - rhs.deviation,
            r.volatility == self.volatility - rhs.volatility,
            r.wf(),
    {
        ScaledRatingData {
            rating: self.rating - rhs.rating,
            deviation: self.deviation - rhs.deviation,
            volatility: self.volatility - rhs.volatility,
        }
    }

    /// Component-wise fixed-point product, used to apply an importance
    /// weight to a rating vector.
    pub fn mul(self, rhs: Self) -> (r: Self)
        requires
            self.wf(),
            rhs.wf(),
            in_magnitude(fmul(self.rating as int, rhs.rating as int)),
            in_magnitude(fmul(self.deviation as int, rhs.deviation as int)),
            in_magnitude(fmul(self.volatility as int, rhs.volatility as int)),
        ensures
            r.rating == fmul(self.rating as int, rhs.rating as int),
            r.deviation == fmul(self.deviation as int, rhs.deviation as int),
            r.volatility == fmul(self.volatility as int, rhs.volatility as int),
            r.wf(),
    {
        ScaledRatingData {
            rating: fixed_mul(self.rating, rhs.rating),
            deviation: fixed_mul(self.deviation, rhs.deviation),
            volatility: fixed_mul(self.volatility, rhs.volatility),
        }
    }

    /// Component-wise division by a positive count (plain, not fixed-point):
    /// dividing an accumulated sum by the number of contributions.
    pub fn div_scalar(self, n: i64) -> (r: Self)
        requires
            self.wf(),
            n >= 1,
        ensures
            r.rating == tdiv(self.rating as int, n as int),
            r.deviation == tdiv(self.deviation as int, n as int),
            r.volatility == tdiv(self.volatility as int, n as int),
            r.wf(),
    {
        proof {
            lemma_tdiv_magnitude(self.rating as int, n as int);
            lemma_tdiv_magnitude(self.deviation as int, n as int);
            lemma_tdiv_magnitude(self.volatility as int, n as int);
        }
        ScaledRatingData {
            rating: tdiv_exec(self.rating, n),
            deviation: tdiv_exec(self.deviation, n),
            volatility: tdiv_exec(self.volatility, n),
        }
    }

    /// Component-wise fixed-point ratio of `self` over `rhs`.
    ///
    /// A component is undefined where the divisor component is zero or the
    /// true ratio leaves the finite domain; `RatingRatio::prune_nan` turns
    /// such components into zero.
    pub fn div(self, rhs: Self) -> (r: RatingRatio)
        requires
            self.wf(),
            rhs.wf(),
        ensures
            r.rating == ratio_component(self.rating as int, rhs.rating as int),
            r.deviation == ratio_component(self.deviation as int, rhs.deviation as int),
            r.volatility == ratio_component(self.volatility as int, rhs.volatility as int),
    {
        RatingRatio {
            rating: ratio_exec(self.rating, rhs.rating),
            deviation: ratio_exec(self.deviation, rhs.deviation),
            volatility: ratio_exec(self.volatility, rhs.volatility),
        }
    }

    /// The confidence interval `[rating - deviation, rating + deviation]`.
    pub fn to_range(self) -> (r: (i64, i64))
        requires
            self.wf(),
        ensures
            r.0 == self.rating - self.deviation,
            r.1 == self.rating + self.deviation,
    {
        (self.rating - self.deviation, self.rating + self.deviation)
    }
}

/// Fixed-point ratio of one component pair: `None` where the divisor is zero
/// or the quotient leaves the finite domain.
pub open spec fn ratio_component(a: int, b: int) -> Option<i64> {
    if b == 0 || !in_magnitude(tdiv(a * SCALE, b)) {
        None
    } else {
        Some(tdiv(a * SCALE, b) as i64)
    }
}

/// The raw result of dividing one rating vector by another: components that
/// were divided by zero (or left the finite domain) are undefined.
#[derive(Clone, Copy, Debug, PartialEq, Eq, Structural)]
pub struct RatingRatio {
    pub rating: Option<i64>,
    pub deviation: Option<i64>,
    pub volatility: Option<i64>,
}

impl RatingRatio {
    /// Replace every undefined component with zero.
    ///
    /// This is the analogue of pruning the not-a-number components a
    /// floating-point division would have produced: an account whose
    /// importance sum is zero on an axis legitimately divides zero by zero
    /// there, and the axis's weight is taken to be zero.
    pub fn prune_nan(self) -> (r: ScaledRatingData)
        ensures
            r.rating == prune_component(self.rating),
            r.deviation == prune_component(self.deviation),
            r.volatility == prune_component(self.volatility),
    {
        ScaledRatingData {
            rating: match self.rating {
                Some(x) => x,
                None => 0,
            },
            deviation: match self.deviation {
                Some(x) => x,
                None => 0,
            },
            volatility: match self.volatility {
                Some(x) => x,
                None => 0,
            },
        }
    }
}

/// An undefined component prunes to zero.
pub open spec fn prune_component(c: Option<i64>) -> int {
    match c {
        Some(x) => x as int,
        None => 0,
    }
}

/// The total order on rating vectors: rating ascending; on a rating tie the
/// smaller deviation ranks greater, and on a further tie the smaller
/// volatility ranks greater.  Higher rating wins, and among equal ratings
/// higher confidence wins.  This order determines feed ranking.
pub open spec fn rating_order(a: ScaledRatingData, b: ScaledRatingData) -> Ordering {
    if a.rating < b.rating {
        Ordering::Less
    } else if a.rating > b.rating {
        Ordering::Greater
    } else if a.deviation > b.deviation {
        Ordering::Less
    } else if a.deviation < b.deviation {
        Ordering::Greater
    } else if a.volatility > b.volatility {
        Ordering::Less
    } else if a.volatility < b.volatility {
        Ordering::Greater
    } else {
        Ordering::Equal
    }
}

/// The confidence order alone: smaller deviation ranks greater, and on a
/// deviation tie smaller volatility ranks greater.  The rating itself plays
/// no part.
pub open spec fn confidence_order(a: ScaledRatingData, b: ScaledRatingData) -> Ordering {
    if a.deviation > b.deviation {
        Ordering::Less
    } else if a.deviation < b.deviation {
        Ordering::Greater
    } else if a.volatility > b.volatility {
        Ordering::Less
    } else if a.volatility < b.volatility {
        Ordering::Greater
    } else {
        Ordering::Equal
    }
}

impl ScaledRatingData {
    /// Compare two vectors by confidence alone (deviation, then volatility,
    /// both inverted).  Always defined on the integer domain.
    pub fn cmp_volatility(&self, other: &Self) -> (r: Option<Ordering>)
        ensures
            r == Some(confidence_order(*self, *other)),
    {
        if self.deviation > other.deviation {
            Some(Ordering::Less)
        } else if self.deviation < other.deviation {
            Some(Ordering::Greater)
        } else if self.volatility > other.volatility {
            Some(Ordering::Less)
        } else if self.volatility < other.volatility {
            Some(Ordering::Greater)
        } else {
            Some(Ordering::Equal)
        }
    }
}

impl PartialOrd for ScaledRatingData {
    fn partial_cmp(&self, other: &Self) -> (r: Option<Ordering>) {
        if self.rating < other.rating {
            Some(Ordering::Less)
        } else if self.rating > other.rating {
            Some(Ordering::Greater)
        } else if self.deviation > other.deviation {
            Some(Ordering::Less)
        } else if self.deviation < other.deviation {
            Some(Ordering::Greater)
        } else if self.volatility > other.volatility {
            Some(Ordering::Less)
        } else if self.volatility < other.volatility {
            Some(Ordering::Greater)
        } else {
            Some(Ordering::Equal)
        }
    }
}

impl vstd::std_specs::cmp::PartialOrdSpecImpl for ScaledRatingData {
    open spec fn obeys_partial_cmp_spec() -> bool {
        true
    }

    open spec fn partial_cmp_spec(&self, other: &Self) -> Option<Ordering> {
        Some(rating_order(*self, *other))
    }
}

/// The signed overlap of two rating confidence intervals: positive where the
/// intervals `[rating - deviation, rating + deviation]` genuinely intersect
/// by that much, negative where a gap of that size separates them.
pub open spec fn spec_rating_overlap(a: ScaledRatingData, b: ScaledRatingData) -> int {
    min_int(a.rating + a.deviation, b.rating + b.deviation) - max_int(
        a.rating - a.deviation,
        b.rating - b.deviation,
    )
}

pub open spec fn min_int(a: int, b: int) -> int {
    if a < b {
        a
    } else {
        b
    }
}

pub open spec fn max_int(a: int, b: int) -> int {
    if a > b {
        a
    } else {
        b
    }
}

/// Signed overlap of the two vectors' confidence intervals.
pub fn rating_overlap(a: ScaledRatingData, b: ScaledRatingData) -> (r: i64)
    requires
        a.wf(),
        b.wf(),
    ensures
        r == spec_rating_overlap(a, b),
{
    let e1: i64 = a.rating + a.deviation;
    let e2: i64 = b.rating + b.deviation;
    let s1: i64 = a.rating - a.deviation;
    let s2: i64 = b.rating - b.deviation;
    let e: i64 = if e1 < e2 {
        e1
    } else {
        e2
    };
    let s: i64 = if s1 > s2 {
        s1
    } else {
        s2
    };
    e - s
}

/// The total order on rating vectors is strict: comparison yields `Equal`
/// exactly on identical vectors, `Less` exactly where the reverse comparison
/// yields `Greater`, and `Less` composes transitively.
pub proof fn lemma_rating_order_strict_total(
    a: ScaledRatingData,
    b: ScaledRatingData,
    c: ScaledRatingData,
)
    ensures
        rating_order(a, b) == Ordering::Equal <==> a == b,
        rating_order(a, b) == Ordering::Less <==> rating_order(b, a) == Ordering::Greater,
        rating_order(a, b) == Ordering::Less && rating_order(b, c) == Ordering::Less
            ==> rating_order(a, c) == Ordering::Less,
{
}

/// Range overlap is symmetric in its two arguments.
pub proof fn lemma_rating_overlap_symmetric(a: ScaledRatingData, b: ScaledRatingData)
    ensures
        spec_rating_overlap(a, b) == spec_rating_overlap(b, a),
{
}

/// Absolute value of one component.
fn abs_component(x: i64) -> (r: i64)
    requires
        in_magnitude(x as int),
    ensures
        r == abs_int(x as int),
        in_magnitude(r as int),
{
    if x < 0 {
        -x
    } else {
        x
    }
}

/// Truncated division of in-range components, via unsigned magnitudes.
fn tdiv_exec(a: i64, n: i64) -> (q: i64)
    requires
        a > i64::MIN,
        n >= 1,
    ensures
        q == tdiv(a as int, n as int),
{
    let mag: i64 = if a < 0 {
        -a
    } else {
        a
    };
    let ua: u64 = mag as u64;
    let uq: u64 = ua / (n as u64);
    proof {
        lemma_unsigned_div_is_tdiv(a as int, n as int, ua, uq);
    }
    if a < 0 {
        -(uq as i64)
    } else {
        uq as i64
    }
}

/// Truncated division over `i128` magnitudes.
fn tdiv_i128(a: i128, b: i128) -> (q: i128)
    requires
        a > i128::MIN,
        b >= 1,
    ensures
        q == tdiv(a as int, b as int),
{
    let mag: i128 = if a < 0 {
        -a
    } else {
        a
    };
    let ua: u128 = mag as u128;
    let uq: u128 = ua / (b as u128);
    proof {
        lemma_unsigned_div_is_tdiv_128(a as int, b as int, ua, uq);
    }
    if a < 0 {
        -(uq as i128)
    } else {
        uq as i128
    }
}

/// Truncated division over `i128`, for any divisor; a zero divisor yields
/// zero, as `tdiv` specifies.
pub(crate) fn tdiv_i128_any(a: i128, b: i128) -> (q: i128)
    requires
        a > i128::MIN,
        b > i128::MIN,
    ensures
        q == tdiv(a as int, b as int),
        abs_int(q as int) <= abs_int(a as int),
{
    proof {
        if b != 0 {
            lemma_tdiv_magnitude_any(a as int, b as int);
        }
    }
    if b == 0 {
        0
    } else if b > 0 {
        tdiv_i128(a, b)
    } else {
        let q: i128 = tdiv_i128(a, -b);
        proof {
            lemma_tdiv_negate_divisor(a as int, -(b as int));
        }
        -q
    }
}

/// A truncated quotient never grows in magnitude, whatever the divisor's
/// sign.
proof fn lemma_tdiv_magnitude_any(a: int, b: int)
    requires
        b != 0,
    ensures
        abs_int(tdiv(a, b)) <= abs_int(a),
{
    vstd::arithmetic::div_mod::lemma_div_nonincreasing(abs_int(a), abs_int(b));
}

/// Fixed-point product of two components.
fn fixed_mul(a: i64, b: i64) -> (r: i64)
    requires
        in_magnitude(a as int),
        in_magnitude(b as int),
        in_magnitude(fmul(a as int, b as int)),
    ensures
        r == fmul(a as int, b as int),
{
    proof {
        lemma_mul_magnitude(a as int, b as int, MAX_MAGNITUDE as int);
    }
    let prod: i128 = (a as i128) * (b as i128);
    let q: i128 = tdiv_i128(prod, SCALE as i128);
    q as i64
}

/// Bounds on the factors bound their product.
pub(crate) proof fn lemma_mul_magnitude(a: int, b: int, m: int)
    by (nonlinear_arith)
    requires
        abs_int(a) <= m,
        abs_int(b) <= m,
    ensures
        abs_int(a * b) <= m * m,
{
}

/// Fixed-point ratio of two components, undefined mapped to `None`.
fn ratio_exec(a: i64, b: i64) -> (r: Option<i64>)
    requires
        in_magnitude(a as int),
        in_magnitude(b as int),
    ensures
        r == ratio_component(a as int, b as int),
{
    if b == 0 {
        None
    } else {
        let bb: i128 = if b < 0 {
            -(b as i128)
        } else {
            b as i128
        };
        let num: i128 = (a as i128) * (SCALE as i128);
        let q: i128 = tdiv_i128(num, bb);
        let q_signed: i128 = if b < 0 {
            -q
        } else {
            q
        };
        proof {
            lemma_tdiv_negate_divisor(a as int * SCALE as int, b as int);
        }
        if q_signed > MAX_MAGNITUDE as i128 || q_signed < -MAX_MAGNITUDE as i128 {
            None
        } else {
            Some(q_signed as i64)
        }
    }
}

/// Unsigned division of the magnitude computes the truncated quotient.
proof fn lemma_unsigned_div_is_tdiv(a: int, n: int, ua: u64, uq: u64)
    requires
        a > i64::MIN,
        -0x8000_0000_0000_0000 <= a <= 0x7fff_ffff_ffff_ffff,
        n >= 1,
        ua == abs_int(a),
        uq == ua as int / n,
    ensures
        a >= 0 ==> uq == tdiv(a, n),
        a < 0 ==> -(uq as int) == tdiv(a, n),
{
}

/// Unsigned division of the magnitude computes the truncated quotient.
proof fn lemma_unsigned_div_is_tdiv_128(a: int, b: int, ua: u128, uq: u128)
    requires
        a > i128::MIN,
        -0x8000_0000_0000_0000_0000_0000_0000_0000 <= a
            <= 0x7fff_ffff_ffff_ffff_ffff_ffff_ffff_ffff,
        b >= 1,
        ua == abs_int(a),
        uq == ua as int / b,
    ensures
        a >= 0 ==> uq == tdiv(a, b),
        a < 0 ==> -(uq as int) == tdiv(a, b),
{
}

/// Negating the divisor negates a truncated quotient.
proof fn lemma_tdiv_negate_divisor(a: int, b: int)
    requires
        b != 0,
    ensures
        tdiv(a, -b) == -tdiv(a, b),
{
}

/// A truncated quotient by a positive divisor never grows in magnitude.
proof fn lemma_tdiv_magnitude(a: int, n: int)
    requires
        n >= 1,
    ensures
        abs_int(tdiv(a, n)) <= abs_int(a),
{
    vstd::arithmetic::div_mod::lemma_div_nonincreasing(abs_int(a), n);
}

} // verus!
