//! Data carried between the engine and its collaborators.

use vstd::prelude::*;

verus! {

use crate::rating::ScaledRatingData;
use crate::rating::SCALE;

/// The form body of a login request.
pub struct PostLogin {
    pub account_id: String,
}

/// The form body of a signup request.
pub struct PostSignup {
    pub tags: String,
}

/// The form body of a profile update.
pub struct PostProfile {
    pub refresh_account_id: bool,
    pub tags: String,
}

/// The form body of a new link submission.
pub struct PostPost {
    pub link: String,
    pub description: String,
    pub tags: String,
}

/// The form body of a link edit.
pub struct PostEditLink {
    pub description: String,
    pub tags: String,
}

/// The style sheet selected for a response, if any.
pub struct StyleId(pub Option<String>);

/// One row of the tag listing.
pub struct TagRow {
    pub id: String,
    pub name: String,
}

/// An account's cached feed: the selected link ids with their composite
/// scores, and when the selection was made.
pub struct Feed {
    /// Seconds since the Unix epoch at which the feed was last regenerated.
    pub refreshed: u64,
    /// Link ids and their overall scores, in display order.
    pub links: Vec<(String, ScaledRatingData)>,
}

/// An opponent's rating at the time of an interaction, together with the
/// outcome assigned to the holder, waiting to be folded into the holder's
/// rating at the next period closure.
#[derive(Clone, Copy, Debug, PartialEq, Eq, Structural)]
pub struct PendingResult {
    /// The opposing side's rating when the interaction happened.
    pub opponent: ScaledRatingData,
    /// The holder's outcome against that opponent, in fixed-point units of
    /// `1 / SCALE`, within `[0, SCALE]`.
    pub outcome: i64,
}

impl PendingResult {
    /// The opponent's rating is finite and the outcome lies in `[0, 1]`.
    pub open spec fn wf(self) -> bool {
        self.opponent.wf() && 0 <= self.outcome <= SCALE
    }
}

/// The rating state an entity holds for one tag: the current rating triple,
/// when its rating period was last closed, and the results still waiting to
/// be folded in.
#[derive(Clone, Debug)]
pub struct Score {
    /// The rating triple, in the algorithm's internal scale.
    pub score: ScaledRatingData,
    /// Seconds since the Unix epoch at the last rating period closure.
    pub last_period: u64,
    /// Results not yet incorporated into the rating, oldest first.
    pub result_queue: Vec<PendingResult>,
}

impl Score {
    /// The rating is finite and every queued result is well formed.
    pub open spec fn wf(self) -> bool {
        self.score.wf() && forall|i: int|
            0 <= i < self.result_queue@.len() ==> (#[trigger] self.result_queue@[i]).wf()
    }
}

/// Deviation of a freshly adopted tag: 350 in public rating points, here in
/// fixed-point internal-scale units (350 divided by the scaling ratio
/// 173.7178 between the public and the internal scale).
pub const INITIAL_DEVIATION: i64 = 2_014_761;

/// Volatility of a freshly adopted tag: 0.06 in fixed-point units.
pub const INITIAL_VOLATILITY: i64 = 60_000;

/// The rating state an entity receives when it first adopts a tag: rating
/// zero, deviation 350 over the scaling ratio, volatility 0.06, an empty
/// result queue, and the given creation time as its last period closure.
pub fn initial_score(now: u64) -> (s: Score)
    ensures
        s.score.rating == 0,
        s.score.deviation == INITIAL_DEVIATION,
        s.score.volatility == INITIAL_VOLATILITY,
        s.last_period == now,
        s.result_queue@.len() == 0,
        s.wf(),
{
    Score {
        score: ScaledRatingData {
            rating: 0,
            deviation: INITIAL_DEVIATION,
            volatility: INITIAL_VOLATILITY,
        },
        last_period: now,
        result_queue: Vec::new(),
    }
}

/// The default state of a profile form's checkbox.
pub fn default_checkbox() -> (b: bool)
    ensures
        b == false,
{
    false
}

} // verus!
