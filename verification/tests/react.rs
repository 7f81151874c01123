//! The pairwise outcome adjustment.

use flock::model::{initial_score, Score};
use flock::rating::ScaledRatingData;
use flock::react::{react, reaction_outcomes, DEMOTE_OUTCOME, NEUTRAL_OUTCOME, PROMOTE_OUTCOME};

fn v(rating: i64, deviation: i64, volatility: i64) -> ScaledRatingData {
    ScaledRatingData { rating, deviation, volatility }
}

fn score_of(rating: ScaledRatingData) -> Score {
    let mut s = initial_score(0);
    s.score = rating;
    s
}

#[test]
fn equal_confidence_is_symmetric() {
    // Identical (rating, deviation, volatility) on both sides: the tie
    // branch hands both sides the bare outcome.
    let r = v(100_000, 2_014_761, 60_000);
    assert_eq!(reaction_outcomes(r, r, NEUTRAL_OUTCOME), (500_000, 500_000));
    assert_eq!(reaction_outcomes(r, r, DEMOTE_OUTCOME), (0, 0));
    assert_eq!(reaction_outcomes(r, r, PROMOTE_OUTCOME), (750_000, 750_000));
}

#[test]
fn less_confident_side_gets_the_nudge() {
    // The user's interval [-1.0, 1.0] sits inside the link's wider
    // [-1.5, 2.5]; the overlap equals the user's full width, so the
    // normalized fraction is exactly one, and the nudge is the whole
    // weight.  The user (smaller deviation, more confident) keeps the
    // bare outcome.
    let user = v(0, 1_000_000, 60_000);
    let link = v(500_000, 2_000_000, 60_000);
    assert_eq!(reaction_outcomes(user, link, NEUTRAL_OUTCOME), (500_000, 750_000));
    // A demote carries the larger corrective weight.
    assert_eq!(reaction_outcomes(user, link, DEMOTE_OUTCOME), (0, 750_000));
    // Swapping sides hands the nudge to the other party.
    assert_eq!(reaction_outcomes(link, user, NEUTRAL_OUTCOME), (750_000, 500_000));
}

#[test]
fn disjoint_ranges_never_nudge_upward() {
    // Disjoint intervals give a negative fraction, which clamps to zero:
    // both sides end at the bare outcome.
    let user = v(0, 100_000, 1);
    let link = v(1_000_000, 100_000, 2);
    assert_eq!(reaction_outcomes(user, link, NEUTRAL_OUTCOME), (500_000, 500_000));
}

#[test]
fn partial_overlap_scales_the_nudge() {
    // Ranges [0, 4] and [2, 8] in whole units share half the narrower
    // width: the fraction is one half, so a neutral reaction nudges the
    // link's outcome up by an eighth.
    let user = v(2_000_000, 2_000_000, 60_000);
    let link = v(5_000_000, 3_000_000, 60_000);
    assert_eq!(reaction_outcomes(user, link, NEUTRAL_OUTCOME), (500_000, 625_000));
}

#[test]
fn react_queues_one_result_on_each_side() {
    let rating = v(100_000, 2_014_761, 60_000);
    let mut user = score_of(rating);
    let mut link = score_of(rating);
    let (uo, lo) = react(&mut user, &mut link, NEUTRAL_OUTCOME);
    assert_eq!((uo, lo), (500_000, 500_000));
    assert_eq!(user.result_queue.len(), 1);
    assert_eq!(link.result_queue.len(), 1);
    assert_eq!(user.result_queue[0].opponent, rating);
    assert_eq!(user.result_queue[0].outcome, 500_000);
    assert_eq!(link.result_queue[0].opponent, rating);
    assert_eq!(link.result_queue[0].outcome, 500_000);
    // The ratings themselves do not move until decay folds the queue.
    assert_eq!(user.score, rating);
    assert_eq!(link.score, rating);
}
