//! The tag-list grammar and the tag set operations.

use flock::tags::{shared_tags, string_to_tags, tag_set_diff};
use flock::EngineError;

fn parse(s: &str) -> Result<Vec<String>, EngineError> {
    string_to_tags(&s.as_bytes().to_vec()).map(|pieces| {
        pieces
            .into_iter()
            .map(|p| String::from_utf8(p).unwrap())
            .collect()
    })
}

fn strings(items: &[&str]) -> Vec<String> {
    items.iter().map(|s| s.to_string()).collect()
}

#[test]
fn plain_tags_split_at_commas() {
    assert_eq!(parse("rust,memes"), Ok(strings(&["rust", "memes"])));
}

#[test]
fn whitespace_around_commas_is_absorbed() {
    assert_eq!(parse("rust , memes,  cats"), Ok(strings(&["rust", "memes", "cats"])));
    assert_eq!(parse("rust\t,\nmemes"), Ok(strings(&["rust", "memes"])));
}

#[test]
fn unicode_whitespace_around_commas_is_absorbed() {
    // The separator swallows any Unicode white-space scalar, as the
    // original's splitter did: no-break space, em space, ideographic
    // space, next line.
    assert_eq!(parse("a,\u{00A0}b"), Ok(strings(&["a", "b"])));
    assert_eq!(parse("a\u{2003},b"), Ok(strings(&["a", "b"])));
    assert_eq!(parse("a\u{3000}\u{00A0},\u{2028}b"), Ok(strings(&["a", "b"])));
    assert_eq!(parse("a,\u{0085}b"), Ok(strings(&["a", "b"])));
}

#[test]
fn unicode_whitespace_inside_a_tag_is_invalid() {
    // Away from a comma the scalar stays in the piece and spoils it.
    assert_eq!(parse("a\u{00A0}b"), Err(EngineError::InvalidTags));
    assert_eq!(parse("\u{2003}a"), Err(EngineError::InvalidTags));
}

#[test]
fn tags_are_lowercased() {
    assert_eq!(parse("Rust,MEMES"), Ok(strings(&["rust", "memes"])));
}

#[test]
fn repeated_tags_collapse_to_the_first() {
    assert_eq!(parse("a,B,a,b"), Ok(strings(&["a", "b"])));
}

#[test]
fn hyphens_and_digits_are_valid() {
    assert_eq!(parse("c-2,web3"), Ok(strings(&["c-2", "web3"])));
}

#[test]
fn empty_submission_is_invalid() {
    assert_eq!(parse(""), Err(EngineError::InvalidTags));
}

#[test]
fn empty_piece_is_invalid() {
    assert_eq!(parse("a,,b"), Err(EngineError::InvalidTags));
    assert_eq!(parse("a,"), Err(EngineError::InvalidTags));
}

#[test]
fn inner_space_is_invalid() {
    assert_eq!(parse("a b"), Err(EngineError::InvalidTags));
}

#[test]
fn leading_space_without_a_comma_is_invalid() {
    // Whitespace is only absorbed next to a comma; at the string's edge
    // it stays and spoils the piece.
    assert_eq!(parse(" a"), Err(EngineError::InvalidTags));
    assert_eq!(parse("a "), Err(EngineError::InvalidTags));
}

#[test]
fn punctuation_is_invalid() {
    assert_eq!(parse("a!b"), Err(EngineError::InvalidTags));
    assert_eq!(parse("tag_name"), Err(EngineError::InvalidTags));
}

#[test]
fn shared_tags_keeps_left_order() {
    let a = strings(&["x", "y", "z"]);
    let b = strings(&["z", "x"]);
    assert_eq!(shared_tags(&a, &b), strings(&["x", "z"]));
}

#[test]
fn shared_tags_of_disjoint_sets_is_empty() {
    let a = strings(&["x"]);
    let b = strings(&["y"]);
    assert_eq!(shared_tags(&a, &b), Vec::<String>::new());
}

#[test]
fn tag_set_diff_gives_removals_and_additions() {
    let old = strings(&["a", "b", "c"]);
    let new = strings(&["b", "d"]);
    // Editing from `old` to `new`: delete a and c, add d.
    assert_eq!(tag_set_diff(&old, &new), strings(&["a", "c"]));
    assert_eq!(tag_set_diff(&new, &old), strings(&["d"]));
}
