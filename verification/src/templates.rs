//! The data each page template consumes.
//!
//! Rendering is the host's work; these are the plain values handed to it.

use vstd::prelude::*;

verus! {

use crate::model::StyleId;
use crate::model::TagRow;

/// The index page: the viewer's feed, or the logged-out landing page.
pub struct Index {
    pub style_id: StyleId,
    pub account: Option<Account>,
}

/// A logged-in viewer and the links selected for them.
pub struct Account {
    pub id: String,
    pub links: Vec<Link>,
}

/// One feed entry as the index page shows it.
pub struct Link {
    pub id: String,
    pub description: String,
    pub rated: bool,
    pub rating: Option<String>,
    pub visited: bool,
}

/// The login page.
pub struct Login {
    pub style_id: StyleId,
    pub redirect_to: Option<String>,
}

/// The signup page.
pub struct Signup {
    pub style_id: StyleId,
}

/// The tag listing page.
pub struct Tags {
    pub style_id: StyleId,
    pub tags: Vec<TagRow>,
    pub after: Option<String>,
}

/// An entity's per-tag scores page.
pub struct TagScores {
    pub style_id: StyleId,
    pub id: String,
    pub tags: Vec<Tag>,
}

/// One tag with its rendered score.
pub struct Tag {
    pub name: String,
    pub score: String,
}

/// The link submission page.
pub struct Post {
    pub style_id: StyleId,
}

/// The link editing page.
pub struct EditLink {
    pub style_id: StyleId,
    pub id: String,
    pub description: String,
    pub tags: String,
}

/// The profile page.
pub struct Profile {
    pub style_id: StyleId,
    pub profile: ProfileInformation,
}

/// What the profile page shows of an account.
pub struct ProfileInformation {
    pub id: String,
    pub tags: String,
}

/// A single feed item page.
pub struct FeedItem {
    pub style_id: StyleId,
    pub flock_host: String,
    pub link_id: String,
}

/// The welcome page shown after signup.
pub struct Welcome {
    pub style_id: StyleId,
    pub account_id: String,
    /// The feed refresh period, in seconds, shown to the new account.
    pub algorithm_feed_refresh_period: u64,
}

/// The style submission page.
pub struct PostStyle {
    pub style_id: StyleId,
}

/// The page confirming a submitted style.
pub struct PostStyleResult {
    pub style_id: StyleId,
    pub created_style_id: String,
}

/// What percent-encoding a string yields; the result depends on the input
/// alone.
pub uninterp spec fn url_encoded(s: Seq<char>) -> Seq<char>;

/// Percent-encode a string for use inside a URL.
///
/// Relies on `urlencoding::encode`: every byte but ASCII alphanumerics and
/// `-`, `_`, `.`, `~` is written as `%` and two hex digits, and an empty
/// string encodes to an empty string.
#[verifier::external_body]
pub fn urlencoded(s: &String) -> (r: String)
    ensures
        r@ == url_encoded(s@),
        s@.len() == 0 ==> r@.len() == 0,
{
    urlencoding::encode(s.as_str()).into_owned()
}

} // verus!
