//! The decay/closing protocol's bookkeeping.

use flock::decay::{decay_decision, decay_score, DecayDecision, SECONDS_PER_MONTH};
use flock::model::{initial_score, PendingResult, Score};
use flock::rating::ScaledRatingData;
use flock::EngineError;

fn v(rating: i64, deviation: i64, volatility: i64) -> ScaledRatingData {
    ScaledRatingData { rating, deviation, volatility }
}

fn result(outcome: i64) -> PendingResult {
    PendingResult { opponent: v(0, 1_000_000, 60_000), outcome }
}

fn score_with_queue(last_period: u64, queued: usize) -> Score {
    let mut s = initial_score(last_period);
    for _ in 0..queued {
        s.result_queue.push(result(500_000));
    }
    s
}

#[test]
fn fresh_score_within_period_is_untouched() {
    // No whole period elapsed and the queue is under the threshold: the
    // score must come back byte-identical and unmutated.
    let mut s = score_with_queue(1_000, 2);
    let before_rating = s.score;
    let before_queue = s.result_queue.clone();
    let now = 1_000 + SECONDS_PER_MONTH - 1;
    let r = decay_score(&mut s, now, 1, 5, v(9, 9, 9));
    assert_eq!(r, Ok(false));
    assert_eq!(s.score, before_rating);
    assert_eq!(s.last_period, 1_000);
    assert_eq!(s.result_queue, before_queue);
}

#[test]
fn elapsed_periods_fold_and_advance() {
    // Two whole one-month periods elapsed: the queue empties and
    // last_period advances by exactly two periods, not to "now".
    let mut s = score_with_queue(1_000, 3);
    let now = 1_000 + 2 * SECONDS_PER_MONTH + 17;
    let closed = v(123, 456, 789);
    let r = decay_score(&mut s, now, 1, 5, closed);
    assert_eq!(r, Ok(true));
    assert_eq!(s.score, closed);
    assert!(s.result_queue.is_empty());
    assert_eq!(s.last_period, 1_000 + 2 * SECONDS_PER_MONTH);
}

#[test]
fn twelve_month_period_scales_the_window() {
    // With a twelve-month period, eleven months of silence is still
    // within the first period.
    let mut s = score_with_queue(0, 0);
    let r = decay_score(&mut s, 11 * SECONDS_PER_MONTH, 12, 5, v(1, 1, 1));
    assert_eq!(r, Ok(false));
    let r = decay_score(&mut s, 12 * SECONDS_PER_MONTH, 12, 5, v(1, 1, 1));
    assert_eq!(r, Ok(true));
    assert_eq!(s.last_period, 12 * SECONDS_PER_MONTH);
}

#[test]
fn full_queue_folds_eagerly() {
    // The queue has reached the threshold before the period elapsed: the
    // rating folds and the queued results are consumed, but the period
    // clock does not advance.
    let mut s = score_with_queue(1_000, 5);
    let now = 2_000;
    let closed = v(42, 43, 44);
    let r = decay_score(&mut s, now, 1, 5, closed);
    assert_eq!(r, Ok(true));
    assert_eq!(s.score, closed);
    assert_eq!(s.last_period, 1_000);
    assert!(s.result_queue.is_empty());
}

#[test]
fn clock_before_last_period_is_an_error() {
    let mut s = score_with_queue(5_000, 0);
    let r = decay_score(&mut s, 4_999, 1, 5, v(0, 0, 0));
    assert_eq!(r, Err(EngineError::ClockSkew));
    assert_eq!(s.last_period, 5_000);
}

#[test]
fn decision_matches_the_three_cases() {
    let s = score_with_queue(0, 4);
    assert_eq!(
        decay_decision(&s, SECONDS_PER_MONTH - 1, 1, 5),
        Ok(DecayDecision::Untouched)
    );
    assert_eq!(
        decay_decision(&s, SECONDS_PER_MONTH - 1, 1, 4),
        Ok(DecayDecision::FoldEager)
    );
    assert_eq!(
        decay_decision(&s, 3 * SECONDS_PER_MONTH, 1, 5),
        Ok(DecayDecision::Fold { periods: 3 })
    );
    assert_eq!(decay_decision(&s, 0, 1, 5), Ok(DecayDecision::Untouched));
}
