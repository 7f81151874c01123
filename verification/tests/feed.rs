//! Tag importance, candidate scoring and feed assembly.

use flock::feed::{
    candidate_score, generate_feed, importance, select_diverse, shuffle, sort_candidates, tag_sum,
    Candidate, TagScore,
};
use flock::rand::pcg_thread_rng;
use flock::rating::{ScaledRatingData, MAX_MAGNITUDE, SCALE};
use flock::EngineError;

fn v(rating: i64, deviation: i64, volatility: i64) -> ScaledRatingData {
    ScaledRatingData { rating, deviation, volatility }
}

fn tag(name: &str, score: ScaledRatingData) -> TagScore {
    TagScore { tag: name.to_string(), score }
}

#[test]
fn tag_sum_accumulates_magnitudes() {
    let tags = vec![tag("x", v(-1, 2, 3)), tag("y", v(4, -5, 6))];
    assert_eq!(tag_sum(&tags), Ok(v(5, 7, 9)));
}

#[test]
fn tag_sum_overflow_is_detected() {
    let tags = vec![
        tag("x", v(MAX_MAGNITUDE, 0, 0)),
        tag("y", v(MAX_MAGNITUDE, 0, 0)),
    ];
    assert_eq!(tag_sum(&tags), Err(EngineError::MagnitudeOverflow));
}

#[test]
fn single_tag_importance_is_unity_off_zero_axes() {
    let t = v(2_000_000, 1_000_000, 60_000);
    let sum = t.abs();
    assert_eq!(importance(t, sum), v(SCALE, SCALE, SCALE));
}

#[test]
fn zero_axis_importance_prunes_to_zero() {
    // An account with no rating signal on an axis divides zero by zero
    // there; the weight is zero, not an error.
    let t = v(0, 1_000_000, 60_000);
    let sum = t.abs();
    assert_eq!(importance(t, sum), v(0, SCALE, SCALE));
}

#[test]
fn importance_splits_between_tags() {
    let a = v(3_000_000, 1_000_000, 60_000);
    let b = v(-1_000_000, 3_000_000, 60_000);
    let sum = a.abs().add(b.abs());
    assert_eq!(importance(a, sum), v(750_000, 250_000, 500_000));
    assert_eq!(importance(b, sum), v(250_000, 750_000, 500_000));
}

#[test]
fn candidate_score_averages_shared_tags() {
    let imps = vec![
        tag("x", v(SCALE, SCALE, SCALE)),
        tag("y", v(SCALE / 2, SCALE / 2, SCALE / 2)),
    ];
    let cand = vec![
        tag("x", v(1_000_000, 2_000_000, 60_000)),
        tag("y", v(2_000_000, 4_000_000, 120_000)),
        tag("z", v(9_999_999, 9_999_999, 9_999_999)),
    ];
    // "x" contributes itself, "y" half of itself, "z" finds no weight.
    assert_eq!(
        candidate_score(&cand, &imps),
        Ok(v(1_000_000, 2_000_000, 60_000))
    );
}

#[test]
fn candidate_without_shared_tag_is_an_invariant_violation() {
    let imps = vec![tag("x", v(SCALE, SCALE, SCALE))];
    let cand = vec![tag("z", v(1, 2, 3))];
    assert_eq!(candidate_score(&cand, &imps), Err(EngineError::InvariantViolation));
}

#[test]
fn sort_ascends_and_keeps_every_entry() {
    let items = vec![
        ("c".to_string(), v(3, 0, 0)),
        ("a".to_string(), v(1, 0, 0)),
        ("b".to_string(), v(2, 0, 0)),
        ("d".to_string(), v(2, 1, 0)),
    ];
    let sorted = sort_candidates(items);
    let ids: Vec<&str> = sorted.iter().map(|p| p.0.as_str()).collect();
    // Equal ratings rank the larger deviation lower.
    assert_eq!(ids, vec!["a", "d", "b", "c"]);
}

#[test]
fn shuffle_permutes_without_loss() {
    let mut rng = pcg_thread_rng();
    let items = vec![
        ("a".to_string(), v(1, 0, 0)),
        ("b".to_string(), v(2, 0, 0)),
        ("c".to_string(), v(3, 0, 0)),
    ];
    let mut out = shuffle(items, &mut rng);
    assert_eq!(out.len(), 3);
    out.sort_by(|x, y| x.0.cmp(&y.0));
    let ids: Vec<&str> = out.iter().map(|p| p.0.as_str()).collect();
    assert_eq!(ids, vec!["a", "b", "c"]);
}

fn many_candidates(n: usize) -> Vec<(String, ScaledRatingData)> {
    (0..n)
        .map(|i| (format!("link-{}", i), v(i as i64, 0, 0)))
        .collect()
}

#[test]
fn selection_takes_everything_from_a_tiny_list() {
    let mut rng = pcg_thread_rng();
    let feed = select_diverse(many_candidates(1), &mut rng);
    assert_eq!(feed.len(), 1);
    let feed = select_diverse(many_candidates(0), &mut rng);
    assert_eq!(feed.len(), 0);
}

#[test]
fn selection_returns_ten_of_twenty() {
    let mut rng = pcg_thread_rng();
    let feed = select_diverse(many_candidates(20), &mut rng);
    assert_eq!(feed.len(), 10);
    let mut ids: Vec<String> = feed.iter().map(|p| p.0.clone()).collect();
    ids.sort();
    ids.dedup();
    assert_eq!(ids.len(), 10);
}

#[test]
fn selection_never_exceeds_the_candidate_count() {
    let mut rng = pcg_thread_rng();
    for n in 0..30 {
        let feed = select_diverse(many_candidates(n), &mut rng);
        assert!(feed.len() <= n);
        assert!(feed.len() <= 10);
        if n >= 13 {
            assert_eq!(feed.len(), 10);
        }
    }
}

#[test]
fn selection_draws_from_tiers_top_down() {
    // Eight candidates make four tiers of two; the selection comes back
    // in tier order: both of the top two, both of the next two, both of
    // the two below, and one of the bottom two.
    let mut rng = pcg_thread_rng();
    let feed = select_diverse(many_candidates(8), &mut rng);
    assert_eq!(feed.len(), 7);
    let ids = |range: std::ops::Range<usize>| -> Vec<String> {
        let mut v: Vec<String> = feed[range].iter().map(|p| p.0.clone()).collect();
        v.sort();
        v
    };
    assert_eq!(ids(0..2), vec!["link-6".to_string(), "link-7".to_string()]);
    assert_eq!(ids(2..4), vec!["link-4".to_string(), "link-5".to_string()]);
    assert_eq!(ids(4..6), vec!["link-2".to_string(), "link-3".to_string()]);
    assert!(feed[6].0 == "link-0" || feed[6].0 == "link-1");
}

#[test]
fn selection_counts_below_thirteen() {
    // The tier sizes round the candidate count up to quarters, so short
    // lists can fall one short of the requested tier takes: ten to
    // twelve candidates yield nine items, not ten.
    let mut rng = pcg_thread_rng();
    let expect = [(4usize, 4usize), (8, 7), (10, 9), (12, 9), (13, 10)];
    for (n, len) in expect {
        assert_eq!(select_diverse(many_candidates(n), &mut rng).len(), len);
    }
}

#[test]
fn empty_candidate_set_yields_an_empty_feed() {
    let mut rng = pcg_thread_rng();
    let account = vec![tag("x", v(1_000_000, 1_000_000, 60_000))];
    let feed = generate_feed(&account, &Vec::new(), &mut rng);
    assert_eq!(feed, Ok(Vec::new()));
}

#[test]
fn single_candidate_scores_by_unit_importance() {
    // One account tag with nonzero components on every axis makes that
    // tag's importance exactly one, so the single candidate's composite
    // score is its own decayed rating.
    let mut rng = pcg_thread_rng();
    let account = vec![tag("x", v(2_000_000, 1_000_000, 60_000))];
    let item_rating = v(-1_234_567, 2_014_761, 60_000);
    let candidates = vec![Candidate {
        id: "link-1".to_string(),
        tags: vec![tag("x", item_rating)],
    }];
    let feed = generate_feed(&account, &candidates, &mut rng).unwrap();
    assert_eq!(feed.len(), 1);
    assert_eq!(feed[0].0, "link-1");
    assert_eq!(feed[0].1, item_rating);
}

#[test]
fn feed_surfaces_scoring_errors() {
    let mut rng = pcg_thread_rng();
    let overflowing = vec![
        tag("x", v(MAX_MAGNITUDE, 0, 0)),
        tag("y", v(MAX_MAGNITUDE, 0, 0)),
    ];
    let candidates = vec![Candidate {
        id: "link-1".to_string(),
        tags: vec![tag("x", v(1, 1, 1))],
    }];
    assert_eq!(
        generate_feed(&overflowing, &candidates, &mut rng),
        Err(EngineError::MagnitudeOverflow)
    );

    let account = vec![tag("x", v(1_000_000, 1_000_000, 60_000))];
    let strangers = vec![Candidate {
        id: "link-2".to_string(),
        tags: vec![tag("z", v(1, 1, 1))],
    }];
    assert_eq!(
        generate_feed(&account, &strangers, &mut rng),
        Err(EngineError::InvariantViolation)
    );
}

#[test]
fn large_feed_is_distinct_and_sized() {
    let mut rng = pcg_thread_rng();
    let account = vec![tag("x", v(2_000_000, 1_000_000, 60_000))];
    let candidates: Vec<Candidate> = (0..25)
        .map(|i| Candidate {
            id: format!("link-{}", i),
            tags: vec![tag("x", v(i as i64 * 10_000, 1_000_000, 60_000))],
        })
        .collect();
    let feed = generate_feed(&account, &candidates, &mut rng).unwrap();
    assert_eq!(feed.len(), 10);
    let mut ids: Vec<String> = feed.iter().map(|p| p.0.clone()).collect();
    ids.sort();
    ids.dedup();
    assert_eq!(ids.len(), 10);
}
