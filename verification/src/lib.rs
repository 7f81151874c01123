//! Rating and feed-ranking engine for a tag-based link feed.
//!
//! Accounts and links each carry a skill-style rating (a rating, deviation,
//! volatility triple in the rating algorithm's internal scale) per tag.  This
//! crate holds the engine's logic: the rating-vector algebra and its total
//! order, signed range overlap, the decay/closing protocol for pending
//! results, tag-importance weighting and candidate scoring, the
//! diversity-preserving selection that assembles a feed, the pairwise outcome
//! adjustment applied when an account reacts to a link, and the advisory
//! per-key lock that guards read-modify-write cycles on score rows.
//!
//! Rating components are fixed-point integers: one unit is one millionth of
//! the rating algorithm's internal scale.  The period-closing computation
//! itself (the Glicko-2 volatility iteration) is floating-point work done by
//! the caller; the engine decides *when* it must run and folds its result
//! back into a score.

use vstd::prelude::*;

pub mod configuration;
pub mod decay;
pub mod feed;
pub mod locks;
pub mod model;
pub mod overlap;
pub mod rand;
pub mod rating;
pub mod react;
pub mod tags;
pub mod templates;

verus! {

/// A failure inside the engine's own computation.
///
/// Store access, serialization and lock contention are the caller's errors;
/// these are the conditions the engine itself detects.
#[derive(Clone, Copy, Debug, PartialEq, Eq, Structural)]
pub enum EngineError {
    /// The supplied "now" timestamp lies before a score's `last_period`.
    ClockSkew,
    /// A rating component left the engine's finite fixed-point domain.
    MagnitudeOverflow,
    /// A candidate shares no tag with the account: the candidate set was
    /// built inconsistently, which the engine refuses to paper over.
    InvariantViolation,
    /// A submitted tag string holds a piece that is not a valid tag.
    InvalidTags,
}

} // verus!
