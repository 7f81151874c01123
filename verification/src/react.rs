//! Pairwise outcome adjustment: what each side is credited when an account
//! reacts to a link.
//!
//! A coarse reaction — demote, neutral or promote — is turned into two
//! calibrated match outcomes, one per side, using the two ratings'
//! confidence and the signed overlap of their confidence intervals.  The
//! less confident side receives the favorable (nudged-up) outcome, the more
//! confident side the bare one; equal confidence gives both sides the bare
//! outcome symmetrically.

use vstd::prelude::*;

verus! {

use core::cmp::Ordering;
use crate::model::PendingResult;
use crate::model::Score;
use crate::rating::ScaledRatingData;
use crate::rating::abs_int;
use crate::rating::confidence_order;
use crate::rating::max_int;
use crate::rating::min_int;
use crate::rating::spec_rating_overlap;
use crate::rating::rating_overlap;
use crate::rating::tdiv;
use crate::rating::tdiv_i128_any;
use crate::rating::SCALE;

/// The base outcome of a demote reaction: 0.
pub const DEMOTE_OUTCOME: i64 = 0;

/// The base outcome of a neutral reaction: 0.5 in fixed-point units.
pub const NEUTRAL_OUTCOME: i64 = 500_000;

/// The base outcome of a promote reaction: 0.75 in fixed-point units.
pub const PROMOTE_OUTCOME: i64 = 750_000;

/// A value is one of the three base outcomes a reaction may carry.
pub open spec fn is_base_outcome(base: int) -> bool {
    base == DEMOTE_OUTCOME || base == NEUTRAL_OUTCOME || base == PROMOTE_OUTCOME
}

/// The corrective weight: a demote (an uncertain, low signal) gets the
/// larger nudge toward a positive outcome when the ratings overlap heavily;
/// already-positive outcomes get the smaller one.
pub open spec fn outcome_weight(base: int) -> int {
    if base == 0 {
        750_000
    } else {
        250_000
    }
}

/// The normalization the signed overlap is divided by: twice the smaller
/// deviation where the intervals genuinely overlap, and the gap-relative
/// measure `deviation₁ + deviation₂ + |rating₁ − rating₂|` where they are
/// disjoint.
pub open spec fn overlap_denominator(user: ScaledRatingData, link: ScaledRatingData) -> int {
    if spec_rating_overlap(user, link) >= 0 {
        2 * min_int(user.deviation as int, link.deviation as int)
    } else {
        user.deviation + link.deviation + abs_int(user.rating - link.rating)
    }
}

/// The overlap normalized into a fixed-point fraction.
pub open spec fn percent_overlap(user: ScaledRatingData, link: ScaledRatingData) -> int {
    tdiv(spec_rating_overlap(user, link) * SCALE, overlap_denominator(user, link))
}

/// How far the favorable outcome is nudged above the base outcome: the
/// weighted percent overlap, never below zero.
pub open spec fn outcome_nudge(user: ScaledRatingData, link: ScaledRatingData, base: int) -> int {
    max_int(0, tdiv(outcome_weight(base) * percent_overlap(user, link), SCALE as int))
}

/// The favorable, nudged-up outcome.
pub open spec fn tweaked_outcome(user: ScaledRatingData, link: ScaledRatingData, base: int) -> int {
    base + outcome_nudge(user, link, base)
}

/// The pair of outcomes `(user's, link's)` a reaction with the given base
/// outcome credits the two sides: equal confidence gives both the base
/// outcome; otherwise the less confident side gets the favorable outcome
/// and the more confident side the base one.
pub open spec fn spec_reaction_outcomes(
    user: ScaledRatingData,
    link: ScaledRatingData,
    base: int,
) -> (int, int) {
    match confidence_order(user, link) {
        Ordering::Equal => (base, base),
        Ordering::Less => (tweaked_outcome(user, link, base), base),
        Ordering::Greater => (base, tweaked_outcome(user, link, base)),
    }
}

/// Compute the two sides' outcomes for a reaction.
///
/// Deviations are nonnegative by the rating algorithm's construction; under
/// that, both outcomes land in `[0, 1]`.
pub fn reaction_outcomes(user: ScaledRatingData, link: ScaledRatingData, base_outcome: i64) -> (r: (
    i64,
    i64,
))
    requires
        user.wf(),
        link.wf(),
        user.deviation >= 0,
        link.deviation >= 0,
        is_base_outcome(base_outcome as int),
    ensures
        (r.0 as int, r.1 as int) == spec_reaction_outcomes(user, link, base_outcome as int),
        0 <= r.0 <= SCALE,
        0 <= r.1 <= SCALE,
{
    let ghost b = base_outcome as int;
    proof {
        lemma_nudge_bounded(user, link, b);
    }
    let order = user.cmp_volatility(&link);
    let tweaked: i64 = match order {
        Some(Ordering::Equal) => base_outcome,
        _ => {
            let o: i64 = rating_overlap(user, link);
            let denominator: i64 = if o >= 0 {
                2 * if user.deviation < link.deviation {
                    user.deviation
                } else {
                    link.deviation
                }
            } else {
                let gap: i64 = if user.rating >= link.rating {
                    user.rating - link.rating
                } else {
                    link.rating - user.rating
                };
                user.deviation + link.deviation + gap
            };
            let percent: i128 = tdiv_i128_any((o as i128) * (SCALE as i128), denominator as i128);
            let weight: i64 = if base_outcome == 0 {
                750_000
            } else {
                250_000
            };
            let nudge_raw: i128 = tdiv_i128_any((weight as i128) * percent, SCALE as i128);
            let nudge: i128 = if nudge_raw > 0 {
                nudge_raw
            } else {
                0
            };
            proof {
                assert(percent == percent_overlap(user, link));
                assert(nudge == outcome_nudge(user, link, b));
            }
            base_outcome + (nudge as i64)
        },
    };
    match order {
        Some(Ordering::Equal) => (base_outcome, base_outcome),
        Some(Ordering::Less) => (tweaked, base_outcome),
        _ => (base_outcome, tweaked),
    }
}

/// The nudge lies between zero and the weight, so a tweaked outcome stays
/// within `[base, 1]`.
proof fn lemma_nudge_bounded(user: ScaledRatingData, link: ScaledRatingData, base: int)
    requires
        user.wf(),
        link.wf(),
        user.deviation >= 0,
        link.deviation >= 0,
        is_base_outcome(base),
    ensures
        0 <= outcome_nudge(user, link, base),
        base + outcome_nudge(user, link, base) <= SCALE,
{
    let o = spec_rating_overlap(user, link);
    let d = overlap_denominator(user, link);
    let po = percent_overlap(user, link);
    let w = outcome_weight(base);
    if o >= 0 {
        // The overlap never exceeds either interval's width, so the
        // normalized fraction never exceeds one.
        assert(o <= d);
        if d > 0 {
            assert(po == o * SCALE / d);
            vstd::arithmetic::div_mod::lemma_div_is_ordered(o * SCALE, d * SCALE, d);
            assert(d * SCALE / d == SCALE) by {
                vstd::arithmetic::div_mod::lemma_div_multiples_vanish(SCALE as int, d);
                assert(d * SCALE == SCALE * d) by (nonlinear_arith);
            }
            assert(po <= SCALE);
            assert(o * SCALE >= 0) by (nonlinear_arith)
                requires
                    o >= 0,
            ;
            vstd::arithmetic::div_mod::lemma_div_pos_is_pos(o * SCALE, d);
            assert(0 <= po);
            lemma_weighted_nudge(w, po);
        } else {
            // A zero divisor is only reached when the overlap itself is
            // zero, and the quotient is zero by definition.
            assert(d == 0 ==> po == 0);
            assert(d >= 0);
            assert(tdiv(w * po, SCALE as int) == 0);
        }
    } else {
        // Disjoint intervals: the fraction is never positive, so the nudge
        // clamps to zero.
        assert(d >= 0);
        if d > 0 {
            assert(o * SCALE < 0) by (nonlinear_arith)
                requires
                    o < 0,
            ;
            assert(po == -(abs_int(o * SCALE) / d));
            vstd::arithmetic::div_mod::lemma_div_pos_is_pos(abs_int(o * SCALE), d);
            assert(po <= 0);
            lemma_weight_times_nonpos(w, po);
        } else {
            assert(po == 0);
            assert(tdiv(w * po, SCALE as int) == 0);
        }
    }
}

/// With a fraction in `[0, 1]`, the weighted nudge lies in `[0, weight]`.
proof fn lemma_weighted_nudge(w: int, po: int)
    requires
        w == 750_000 || w == 250_000,
        0 <= po <= SCALE,
    ensures
        0 <= tdiv(w * po, SCALE as int) <= w,
{
    assert(0 <= w * po <= w * SCALE) by (nonlinear_arith)
        requires
            w >= 0 && 0 <= po <= SCALE,
    ;
    vstd::arithmetic::div_mod::lemma_div_pos_is_pos(w * po, SCALE as int);
    vstd::arithmetic::div_mod::lemma_div_is_ordered(w * po, w * SCALE, SCALE as int);
    vstd::arithmetic::div_mod::lemma_div_multiples_vanish(w, SCALE as int);
    assert(w * SCALE == SCALE * w) by (nonlinear_arith);
}

/// A nonpositive fraction never nudges upward.
proof fn lemma_weight_times_nonpos(w: int, po: int)
    requires
        w >= 0,
        po <= 0,
    ensures
        tdiv(w * po, SCALE as int) <= 0,
{
    assert(w * po <= 0) by (nonlinear_arith)
        requires
            w >= 0 && po <= 0,
    ;
    if w * po < 0 {
        vstd::arithmetic::div_mod::lemma_div_pos_is_pos(abs_int(w * po), SCALE as int);
    }
}

/// Record a reaction on one shared tag: credit each side its outcome and
/// queue the result, against the opponent's current rating, on both sides.
///
/// The ratings themselves do not move here — the queued results reach them
/// at the next decay/closing step.  Returns the `(user's, link's)` outcome
/// pair that was queued.
pub fn react(user: &mut Score, link: &mut Score, base_outcome: i64) -> (r: (i64, i64))
    requires
        old(user).wf(),
        old(link).wf(),
        old(user).score.deviation >= 0,
        old(link).score.deviation >= 0,
        is_base_outcome(base_outcome as int),
    ensures
        (r.0 as int, r.1 as int) == spec_reaction_outcomes(
            old(user).score,
            old(link).score,
            base_outcome as int,
        ),
        final(user).score == old(user).score,
        final(user).last_period == old(user).last_period,
        final(user).result_queue@ == old(user).result_queue@.push(
            PendingResult { opponent: old(link).score, outcome: r.0 },
        ),
        final(link).score == old(link).score,
        final(link).last_period == old(link).last_period,
        final(link).result_queue@ == old(link).result_queue@.push(
            PendingResult { opponent: old(user).score, outcome: r.1 },
        ),
        final(user).wf(),
        final(link).wf(),
{
    let (user_outcome, link_outcome) = reaction_outcomes(user.score, link.score, base_outcome);
    let user_result = PendingResult { opponent: link.score, outcome: user_outcome };
    let link_result = PendingResult { opponent: user.score, outcome: link_outcome };
    user.result_queue.push(user_result);
    link.result_queue.push(link_result);
    (user_outcome, link_outcome)
}

} // verus!
