//! Configuration defaults, model values and the template helpers.

use flock::configuration::{
    default_create_if_missing, default_log_filter, default_path, default_secure_cookies,
    feed_is_stale, General, Routes, Sqlite,
};
use flock::model::{default_checkbox, initial_score, INITIAL_DEVIATION, INITIAL_VOLATILITY};
use flock::overlap::{normalize_bounds, overlap, Overlap};
use flock::rand::pcg_thread_rng;
use flock::templates::urlencoded;

#[test]
fn configuration_defaults() {
    assert_eq!(default_log_filter(), "info");
    assert_eq!(default_path(), "flock.db");
    assert!(default_create_if_missing());
    assert!(!default_secure_cookies());
    assert!(!default_checkbox());
    let g = General::default();
    assert_eq!(g.log_filter, "info");
    let s = Sqlite::default();
    assert_eq!(s.path, "flock.db");
    assert!(s.create_if_missing);
    assert!(s.min_connections.is_none() && s.max_connections.is_none());
    let r = Routes::default();
    assert!(!r.secure_cookies);
}

#[test]
fn staleness_is_strict() {
    assert!(!feed_is_stale(100, 100, 50));
    assert!(!feed_is_stale(100, 150, 50));
    assert!(feed_is_stale(100, 151, 50));
}

#[test]
fn initial_score_matches_the_fixed_start() {
    let s = initial_score(12_345);
    assert_eq!(s.score.rating, 0);
    assert_eq!(s.score.deviation, INITIAL_DEVIATION);
    assert_eq!(s.score.volatility, INITIAL_VOLATILITY);
    assert_eq!(s.last_period, 12_345);
    assert!(s.result_queue.is_empty());
    // 350 public rating points over the 173.7178 scaling ratio, in
    // millionths.
    assert_eq!(INITIAL_DEVIATION, 2_014_761);
    assert_eq!(INITIAL_VOLATILITY, 60_000);
}

#[test]
fn normalize_bounds_orders_endpoints() {
    assert_eq!(normalize_bounds(5, 2), (2, 5));
    assert_eq!(normalize_bounds(2, 5), (2, 5));
    assert_eq!(normalize_bounds(3, 3), (3, 3));
}

#[test]
fn overlap_measures_intersection_and_gap() {
    assert_eq!(overlap((0, 4), (2, 8)), Overlap::Positive(2));
    assert_eq!(overlap((4, 0), (8, 2)), Overlap::Positive(2));
    assert_eq!(overlap((0, 2), (5, 9)), Overlap::Negative(3));
    assert_eq!(overlap((0, 2), (2, 4)), Overlap::Positive(0));
    assert_eq!(overlap((2, 8), (0, 4)), Overlap::Positive(2));
}

#[test]
fn urlencoded_escapes_reserved_bytes() {
    let s = "a b/c?d".to_string();
    assert_eq!(urlencoded(&s), "a%20b%2Fc%3Fd");
    assert_eq!(urlencoded(&String::new()), "");
    assert_eq!(urlencoded(&"safe-text_1.~".to_string()), "safe-text_1.~");
}

#[test]
fn gen_index_stays_below_its_bound() {
    let mut rng = pcg_thread_rng();
    for n in 1..20usize {
        for _ in 0..50 {
            assert!(rng.gen_index(n) < n);
        }
    }
    // Draws are well distributed enough to hit more than one value.
    let mut seen = [false; 8];
    for _ in 0..200 {
        seen[rng.gen_index(8)] = true;
    }
    assert!(seen.iter().filter(|b| **b).count() > 1);
}
