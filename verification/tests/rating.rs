//! The rating-vector algebra and its total order.

use flock::rating::{rating_overlap, ScaledRatingData, MAX_MAGNITUDE, SCALE};
use std::cmp::Ordering;

fn v(rating: i64, deviation: i64, volatility: i64) -> ScaledRatingData {
    ScaledRatingData { rating, deviation, volatility }
}

#[test]
fn add_is_componentwise() {
    let a = v(1_000_000, 2_000_000, 60_000);
    let b = v(-500_000, 1_000_000, 40_000);
    let s = a.add(b);
    assert_eq!(s, v(500_000, 3_000_000, 100_000));
}

#[test]
fn sub_is_componentwise() {
    let a = flock::rating::ScaledRatingData::zero();
    let b = v(-500_000, 1_000_000, 40_000);
    assert_eq!(a.sub(b), v(500_000, -1_000_000, -40_000));
}

#[test]
fn abs_takes_magnitudes() {
    let a = v(-1_500_000, 2_000_000, -60_000);
    assert_eq!(a.abs(), v(1_500_000, 2_000_000, 60_000));
}

#[test]
fn mul_scales_fixed_point() {
    // A weight of one half applied to each component.
    let half = v(SCALE / 2, SCALE / 2, SCALE / 2);
    let a = v(2_000_000, -1_000_000, 60_000);
    assert_eq!(a.mul(half), v(1_000_000, -500_000, 30_000));
}

#[test]
fn div_scalar_truncates_toward_zero() {
    let a = v(7, -7, 9);
    assert_eq!(a.div_scalar(2), v(3, -3, 4));
}

#[test]
fn div_and_prune_zero_over_zero() {
    // Dividing a zero axis by a zero axis is the degenerate case that
    // prunes to zero; a well-defined axis keeps its exact ratio.
    let a = v(0, 1_000_000, 30_000);
    let b = v(0, 2_000_000, 60_000);
    let q = a.div(b).prune_nan();
    assert_eq!(q, v(0, SCALE / 2, SCALE / 2));
}

#[test]
fn partial_cmp_orders_by_rating_first() {
    assert_eq!(
        v(1, 9, 9).partial_cmp(&v(2, 0, 0)),
        Some(Ordering::Less)
    );
    assert_eq!(
        v(3, 9, 9).partial_cmp(&v(2, 0, 0)),
        Some(Ordering::Greater)
    );
}

#[test]
fn partial_cmp_inverts_deviation_on_rating_tie() {
    // The smaller deviation (higher confidence) ranks greater.
    assert_eq!(
        v(5, 1, 0).partial_cmp(&v(5, 2, 0)),
        Some(Ordering::Greater)
    );
    assert_eq!(
        v(5, 2, 0).partial_cmp(&v(5, 1, 0)),
        Some(Ordering::Less)
    );
}

#[test]
fn partial_cmp_inverts_volatility_on_further_tie() {
    assert_eq!(
        v(5, 2, 1).partial_cmp(&v(5, 2, 3)),
        Some(Ordering::Greater)
    );
    assert_eq!(
        v(5, 2, 3).partial_cmp(&v(5, 2, 1)),
        Some(Ordering::Less)
    );
}

#[test]
fn equal_vectors_compare_equal() {
    let a = v(5, 2, 1);
    assert_eq!(a.partial_cmp(&a), Some(Ordering::Equal));
}

#[test]
fn cmp_volatility_ignores_rating() {
    assert_eq!(
        v(100, 1, 5).cmp_volatility(&v(-100, 2, 5)),
        Some(Ordering::Greater)
    );
    assert_eq!(
        v(0, 2, 2).cmp_volatility(&v(0, 2, 1)),
        Some(Ordering::Less)
    );
    assert_eq!(
        v(7, 2, 2).cmp_volatility(&v(9, 2, 2)),
        Some(Ordering::Equal)
    );
}

#[test]
fn overlap_of_intersecting_ranges() {
    // [0, 4] and [2, 8] share [2, 4].
    assert_eq!(rating_overlap(v(2, 2, 0), v(5, 3, 0)), 2);
}

#[test]
fn overlap_of_disjoint_ranges_is_negative() {
    // [0, 2] and [5, 9] are 3 apart.
    assert_eq!(rating_overlap(v(1, 1, 0), v(7, 2, 0)), -3);
}

#[test]
fn overlap_is_symmetric() {
    let a = v(2, 2, 0);
    let b = v(5, 3, 0);
    assert_eq!(rating_overlap(a, b), rating_overlap(b, a));
    let c = v(1, 1, 0);
    let d = v(7, 2, 0);
    assert_eq!(rating_overlap(c, d), rating_overlap(d, c));
}

#[test]
fn to_range_spans_one_deviation_each_way() {
    assert_eq!(v(10, 3, 0).to_range(), (7, 13));
}

#[test]
fn magnitude_bound_fits_rating_sums() {
    // Four components at the bound still fit an i64 when summed, which is
    // what the overlap arithmetic relies on.
    let four = 4i128 * (MAX_MAGNITUDE as i128);
    assert!(four <= i64::MAX as i128);
}
