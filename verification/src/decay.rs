//! The rating decay / period-closing protocol.
//!
//! A score's pending results must be folded into its rating when whole
//! calendar periods have elapsed since the last closure, or eagerly when the
//! queue has grown past the configured threshold.  The fold itself — the
//! rating algorithm's period-closing computation — is the caller's work:
//! [`decay_decision`] says whether and how to fold, the caller closes the
//! rating accordingly, and [`decay_score`] folds the closed rating back into
//! the score and does the bookkeeping.  Either fold consumes the queued
//! results, so a fold always clears the queue.

use vstd::prelude::*;

verus! {

use crate::EngineError;
use crate::model::Score;
use crate::rating::ScaledRatingData;

/// Seconds in one month of thirty days.
pub const SECONDS_PER_MONTH: u64 = 2_592_000;

/// What a score's state calls for at a given moment.
#[derive(Clone, Copy, Debug, PartialEq, Eq, Structural)]
pub enum DecayDecision {
    /// Whole periods have elapsed: close the rating once over the queued
    /// results, then `periods - 1` more times over an empty result set, so
    /// stale intervals still widen the deviation.
    Fold { periods: u64 },
    /// The queue has reached the configured threshold before a period
    /// elapsed: close the rating once over the queued results, consuming
    /// them without advancing the period clock.
    FoldEager,
    /// Nothing to do; the score must not be rewritten.
    Untouched,
}

/// The length in seconds of this score's rating period: `period` months of
/// thirty days.
pub open spec fn period_seconds(period: u64) -> int {
    SECONDS_PER_MONTH * period
}

/// Whole rating periods elapsed between the last closure and `now`.
pub open spec fn elapsed_periods(last_period: u64, now: u64, period: u64) -> int {
    (now - last_period) / period_seconds(period)
}

/// The decision the protocol makes for a score at time `now`, with a rating
/// period of `period` months and an eager-fold queue threshold of
/// `threshold`.
pub open spec fn spec_decay_decision(
    score: Score,
    now: u64,
    period: u64,
    threshold: usize,
) -> DecayDecision {
    if elapsed_periods(score.last_period, now, period) > 0 {
        DecayDecision::Fold { periods: elapsed_periods(score.last_period, now, period) as u64 }
    } else if score.result_queue@.len() >= threshold {
        DecayDecision::FoldEager
    } else {
        DecayDecision::Untouched
    }
}

/// Decide whether `score`'s pending results must be folded at time `now`.
///
/// Fails with [`EngineError::ClockSkew`] when `now` lies before the score's
/// last closure.
pub fn decay_decision(score: &Score, now: u64, period: u64, threshold: usize) -> (d: Result<
    DecayDecision,
    EngineError,
>)
    requires
        1 <= period,
    ensures
        now < score.last_period <==> d == Err::<DecayDecision, EngineError>(EngineError::ClockSkew),
        now >= score.last_period ==> d == Ok::<DecayDecision, EngineError>(
            spec_decay_decision(*score, now, period, threshold),
        ),
{
    if now < score.last_period {
        return Err(EngineError::ClockSkew);
    }
    proof {
        lemma_period_seconds_fits(period);
    }
    let ps: u128 = (SECONDS_PER_MONTH as u128) * (period as u128);
    let elapsed: u128 = (now - score.last_period) as u128;
    let periods_wide: u128 = elapsed / ps;
    proof {
        vstd::arithmetic::div_mod::lemma_div_nonincreasing(elapsed as int, ps as int);
    }
    let periods: u64 = periods_wide as u64;
    if periods > 0 {
        Ok(DecayDecision::Fold { periods })
    } else if score.result_queue.len() >= threshold {
        Ok(DecayDecision::FoldEager)
    } else {
        Ok(DecayDecision::Untouched)
    }
}

/// Fold the externally closed rating back into the score.
///
/// `closed` is the rating after the caller ran the period-closing
/// computation as the decision demanded; it is ignored when the decision is
/// `Untouched`.  A fold of either kind consumes the queued results.
/// Returns whether the score mutated — an unmutated score must not be
/// rewritten to the store.
pub fn decay_apply(
    score: &mut Score,
    decision: DecayDecision,
    closed: ScaledRatingData,
    period: u64,
) -> (mutated: bool)
    requires
        1 <= period,
        decision matches DecayDecision::Fold { periods } ==> periods >= 1 && old(
            score,
        ).last_period + periods * period_seconds(period) <= u64::MAX,
    ensures
        match decision {
            DecayDecision::Fold { periods } => {
                &&& mutated == true
                &&& final(score).score == closed
                &&& final(score).result_queue@ =~= Seq::<crate::model::PendingResult>::empty()
                &&& final(score).last_period == old(score).last_period + periods * period_seconds(
                    period,
                )
            },
            DecayDecision::FoldEager => {
                &&& mutated == true
                &&& final(score).score == closed
                &&& final(score).result_queue@ =~= Seq::<crate::model::PendingResult>::empty()
                &&& final(score).last_period == old(score).last_period
            },
            DecayDecision::Untouched => {
                &&& mutated == false
                &&& *final(score) == *old(score)
            },
        },
{
    match decision {
        DecayDecision::Fold { periods } => {
            proof {
                lemma_period_seconds_fits(period);
                lemma_mul_le(
                    periods as int,
                    period_seconds(period),
                    u64::MAX as int,
                    period_seconds(period),
                );
            }
            let ps: u128 = (SECONDS_PER_MONTH as u128) * (period as u128);
            let advanced: u128 = (score.last_period as u128) + (periods as u128) * ps;
            score.score = closed;
            score.result_queue.clear();
            score.last_period = advanced as u64;
            true
        },
        DecayDecision::FoldEager => {
            score.score = closed;
            score.result_queue.clear();
            true
        },
        DecayDecision::Untouched => false,
    }
}

/// Decide and fold in one step: check what `score` calls for at `now`, and
/// fold the caller's closed rating back in accordingly.
///
/// `closed` is what the period-closing computation produced for the decision
/// [`decay_decision`] returned for this score; it is ignored when nothing is
/// folded.  Either fold consumes the queue.  `Ok(false)` says the score is
/// untouched, byte for byte.
pub fn decay_score(
    score: &mut Score,
    now: u64,
    period: u64,
    threshold: usize,
    closed: ScaledRatingData,
) -> (r: Result<bool, EngineError>)
    requires
        1 <= period,
    ensures
        now < old(score).last_period <==> r == Err::<bool, EngineError>(EngineError::ClockSkew),
        r is Err ==> *final(score) == *old(score),
        now >= old(score).last_period ==> {
            let periods = elapsed_periods(old(score).last_period, now, period);
            &&& periods > 0 ==> {
                &&& r == Ok::<bool, EngineError>(true)
                &&& final(score).score == closed
                &&& final(score).result_queue@ =~= Seq::<crate::model::PendingResult>::empty()
                &&& final(score).last_period == old(score).last_period + periods * period_seconds(
                    period,
                )
            }
            &&& periods == 0 && old(score).result_queue@.len() >= threshold ==> {
                &&& r == Ok::<bool, EngineError>(true)
                &&& final(score).score == closed
                &&& final(score).result_queue@ =~= Seq::<crate::model::PendingResult>::empty()
                &&& final(score).last_period == old(score).last_period
            }
            &&& periods == 0 && old(score).result_queue@.len() < threshold ==> {
                &&& r == Ok::<bool, EngineError>(false)
                &&& *final(score) == *old(score)
            }
        },
{
    let decision = match decay_decision(score, now, period, threshold) {
        Ok(d) => d,
        Err(e) => {
            return Err(e);
        },
    };
    proof {
        if decision matches DecayDecision::Fold { periods } {
            lemma_fold_stays_within_now(score.last_period, now, period);
        }
    }
    Ok(decay_apply(score, decision, closed, period))
}

/// A period length in seconds is positive and fits comfortably below the
/// `u128` range.
proof fn lemma_period_seconds_fits(period: u64)
    by (nonlinear_arith)
    requires
        1 <= period,
    ensures
        SECONDS_PER_MONTH <= SECONDS_PER_MONTH * period <= 0x2790_0000_0000_0000_0000_0000,
{
}

/// Multiplication is monotone in both nonnegative factors.
proof fn lemma_mul_le(a: int, b: int, c: int, d: int)
    by (nonlinear_arith)
    requires
        0 <= a <= c,
        0 <= b <= d,
    ensures
        a * b <= c * d,
{
}

/// Advancing `last_period` by the elapsed whole periods never moves it past
/// `now`.
proof fn lemma_fold_stays_within_now(last_period: u64, now: u64, period: u64)
    requires
        1 <= period,
        last_period <= now,
    ensures
        last_period + elapsed_periods(last_period, now, period) * period_seconds(period) <= now,
{
    let ps = period_seconds(period);
    let e = now - last_period;
    vstd::arithmetic::div_mod::lemma_fundamental_div_mod(e, ps);
    vstd::arithmetic::div_mod::lemma_mod_bound(e, ps);
    assert(e / ps * ps == ps * (e / ps));
}

} // verus!
