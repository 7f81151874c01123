//! Tag importance, candidate scoring, and feed assembly.
//!
//! Given an account's per-tag ratings and the unseen candidate links that
//! share tags with it, the engine weighs each tag by how much of the
//! account's overall interest signature it carries, scores every candidate
//! by the importance-weighted average of its shared-tag ratings, ranks the
//! candidates by the rating order, and assembles a feed that samples across
//! score tiers so the result stays biased toward high scores without being
//! a plain top-N list.

use vstd::prelude::*;

verus! {

use core::cmp::Ordering;
use vstd::multiset::Multiset;
use crate::EngineError;
use crate::rand::PcgThreadRng;
use crate::rating::ScaledRatingData;
use crate::rating::abs_int;
use crate::rating::fmul;
use crate::rating::in_magnitude;
use crate::rating::prune_component;
use crate::rating::rating_order;
use crate::rating::ratio_component;
use crate::rating::tdiv;
use crate::rating::MAX_MAGNITUDE;
use crate::rating::SCALE;

/// One tag's rating, as the scoring pipeline consumes it: the caller has
/// already read the score row and run decay on it.
pub struct TagScore {
    /// The tag's id.
    pub tag: String,
    /// The (already decayed) rating vector for this tag.
    pub score: ScaledRatingData,
}

/// A candidate link: its id and its rating per tag.  Only tags the account
/// also holds contribute to the candidate's score.
pub struct Candidate {
    /// The link's id.
    pub id: String,
    /// The link's (already decayed) rating vector per tag.
    pub tags: Vec<TagScore>,
}

/// Component-wise sum of absolute rating vectors over a tag list.
pub open spec fn abs_sum(s: Seq<TagScore>) -> (int, int, int)
    decreases s.len(),
{
    if s.len() == 0 {
        (0, 0, 0)
    } else {
        let rest = abs_sum(s.drop_last());
        let t = s.last().score;
        (
            rest.0 + abs_int(t.rating as int),
            rest.1 + abs_int(t.deviation as int),
            rest.2 + abs_int(t.volatility as int),
        )
    }
}

/// Every tag's rating vector is within the finite domain.
pub open spec fn all_wf(s: Seq<TagScore>) -> bool {
    forall|i: int| 0 <= i < s.len() ==> (#[trigger] s[i]).score.wf()
}

/// The absolute sum stays within `len` times the component bound.
proof fn lemma_abs_sum_bounds(s: Seq<TagScore>)
    requires
        all_wf(s),
    ensures
        0 <= abs_sum(s).0 <= s.len() * MAX_MAGNITUDE,
        0 <= abs_sum(s).1 <= s.len() * MAX_MAGNITUDE,
        0 <= abs_sum(s).2 <= s.len() * MAX_MAGNITUDE,
    decreases s.len(),
{
    if s.len() > 0 {
        assert(all_wf(s.drop_last())) by {
            assert(forall|i: int|
                0 <= i < s.len() - 1 ==> (#[trigger] s.drop_last()[i]) == s[i]);
        }
        lemma_abs_sum_bounds(s.drop_last());
        assert(s.last().score.wf());
    }
}

/// Each tag's absolute components are below the absolute sum.
proof fn lemma_abs_sum_element(s: Seq<TagScore>, i: int)
    requires
        all_wf(s),
        0 <= i < s.len(),
    ensures
        abs_int(s[i].score.rating as int) <= abs_sum(s).0,
        abs_int(s[i].score.deviation as int) <= abs_sum(s).1,
        abs_int(s[i].score.volatility as int) <= abs_sum(s).2,
    decreases s.len(),
{
    lemma_abs_sum_bounds(s);
    if s.len() > 0 {
        assert(all_wf(s.drop_last())) by {
            assert(forall|j: int|
                0 <= j < s.len() - 1 ==> (#[trigger] s.drop_last()[j]) == s[j]);
        }
        lemma_abs_sum_bounds(s.drop_last());
        if i < s.len() - 1 {
            lemma_abs_sum_element(s.drop_last(), i);
        }
    }
}

/// Sum the absolute rating vectors of an account's tags.
///
/// Fails with [`EngineError::MagnitudeOverflow`] exactly when the true sum
/// leaves the finite component domain on some axis.
pub fn tag_sum(tags: &Vec<TagScore>) -> (r: Result<ScaledRatingData, EngineError>)
    requires
        all_wf(tags@),
    ensures
        r matches Ok(sum) ==> {
            &&& (sum.rating as int, sum.deviation as int, sum.volatility as int) == abs_sum(tags@)
            &&& sum.wf()
            &&& sum.rating >= 0 && sum.deviation >= 0 && sum.volatility >= 0
        },
        r is Ok <==> in_magnitude(abs_sum(tags@).0) && in_magnitude(abs_sum(tags@).1)
            && in_magnitude(abs_sum(tags@).2),
        r is Err ==> r == Err::<ScaledRatingData, EngineError>(EngineError::MagnitudeOverflow),
{
    let mut ar: i128 = 0;
    let mut ad: i128 = 0;
    let mut av: i128 = 0;
    let n: usize = tags.len();
    let mut i: usize = 0;
    while i < n
        invariant
            n == tags@.len(),
            0 <= i <= n,
            all_wf(tags@),
            (ar as int, ad as int, av as int) == abs_sum(tags@.subrange(0, i as int)),
            0 <= ar <= i * MAX_MAGNITUDE,
            0 <= ad <= i * MAX_MAGNITUDE,
            0 <= av <= i * MAX_MAGNITUDE,
        decreases n - i,
    {
        let ghost prefix = tags@.subrange(0, i as int);
        proof {
            lemma_abs_sum_bounds(prefix);
            assert(tags@[i as int].score.wf());
            assert(i * MAX_MAGNITUDE + MAX_MAGNITUDE == (i + 1) * MAX_MAGNITUDE) by (nonlinear_arith);
            assert((i + 1) * MAX_MAGNITUDE <= 0x1_0000_0000_0000_0000 * MAX_MAGNITUDE)
                by (nonlinear_arith)
                requires
                    i + 1 <= 0x1_0000_0000_0000_0000,
            ;
        }
        let t = &tags[i].score;
        ar = ar + abs_i64_wide(t.rating);
        ad = ad + abs_i64_wide(t.deviation);
        av = av + abs_i64_wide(t.volatility);
        i = i + 1;
        proof {
            let next = tags@.subrange(0, i as int);
            assert(next.drop_last() =~= prefix);
            assert(next.last() == tags@[i - 1]);
        }
    }
    proof {
        assert(tags@.subrange(0, n as int) =~= tags@);
    }
    if ar > MAX_MAGNITUDE as i128 || ad > MAX_MAGNITUDE as i128 || av > MAX_MAGNITUDE as i128 {
        Err(EngineError::MagnitudeOverflow)
    } else {
        Ok(ScaledRatingData { rating: ar as i64, deviation: ad as i64, volatility: av as i64 })
    }
}

/// Absolute value of a well-formed component, widened.
fn abs_i64_wide(x: i64) -> (r: i128)
    requires
        in_magnitude(x as int),
    ensures
        r == abs_int(x as int),
{
    if x < 0 {
        -(x as i128)
    } else {
        x as i128
    }
}

/// A tag's importance: its absolute rating vector divided component-wise by
/// the account's absolute sum, with zero-divisor components pruned to zero.
pub open spec fn spec_importance(t: ScaledRatingData, sum: ScaledRatingData) -> ScaledRatingData {
    ScaledRatingData {
        rating: prune_component(ratio_component(abs_int(t.rating as int), sum.rating as int))
            as i64,
        deviation: prune_component(
            ratio_component(abs_int(t.deviation as int), sum.deviation as int),
        ) as i64,
        volatility: prune_component(
            ratio_component(abs_int(t.volatility as int), sum.volatility as int),
        ) as i64,
    }
}

/// A vector whose components are fixed-point fractions in `[0, 1]`.
pub open spec fn is_importance(v: ScaledRatingData) -> bool {
    0 <= v.rating <= SCALE && 0 <= v.deviation <= SCALE && 0 <= v.volatility <= SCALE
}

/// How much of the account's interest signature one tag carries, per axis.
///
/// `sum` must dominate the tag's own absolute components — it is the
/// absolute sum over a tag list containing this tag.
pub fn importance(t: ScaledRatingData, sum: ScaledRatingData) -> (imp: ScaledRatingData)
    requires
        t.wf(),
        sum.wf(),
        abs_int(t.rating as int) <= sum.rating,
        abs_int(t.deviation as int) <= sum.deviation,
        abs_int(t.volatility as int) <= sum.volatility,
    ensures
        imp == spec_importance(t, sum),
        is_importance(imp),
{
    proof {
        lemma_importance_component(t.rating as int, sum.rating as int);
        lemma_importance_component(t.deviation as int, sum.deviation as int);
        lemma_importance_component(t.volatility as int, sum.volatility as int);
    }
    t.abs().div(sum).prune_nan()
}

/// A dominated ratio lands in `[0, 1]` (or prunes to zero).
proof fn lemma_importance_component(a: int, b: int)
    requires
        0 <= abs_int(a) <= b,
    ensures
        0 <= prune_component(ratio_component(abs_int(a), b)) <= SCALE,
{
    let aa = abs_int(a);
    if b == 0 {
    } else {
        assert(tdiv(aa * SCALE, b) == aa * SCALE / b);
        lemma_div_le_factor(aa * SCALE, b, SCALE as int);
        vstd::arithmetic::div_mod::lemma_div_pos_is_pos(aa * SCALE, b);
        assert(in_magnitude(tdiv(aa * SCALE, b)));
    }
}

/// With `0 <= a <= c * m` and `c >= 1`, the quotient `a / c` is at most `m`.
proof fn lemma_div_le_factor(a: int, c: int, m: int)
    requires
        c >= 1,
        0 <= m,
        0 <= a <= c * m,
    ensures
        0 <= a / c <= m,
{
    vstd::arithmetic::div_mod::lemma_div_pos_is_pos(a, c);
    vstd::arithmetic::div_mod::lemma_div_is_ordered(a, c * m, c);
    vstd::arithmetic::div_mod::lemma_div_multiples_vanish(m, c);
    assert(c * m / c == m);
}

/// The first importance vector recorded for a tag id, if any.
pub open spec fn lookup_tag(s: Seq<TagScore>, tag: Seq<char>) -> Option<ScaledRatingData>
    decreases s.len(),
{
    if s.len() == 0 {
        None
    } else if s[0].tag@ == tag {
        Some(s[0].score)
    } else {
        lookup_tag(s.drop_first(), tag)
    }
}

/// Find a tag's importance vector by id.
pub fn find_tag(s: &Vec<TagScore>, tag: &String) -> (r: Option<ScaledRatingData>)
    ensures
        r == lookup_tag(s@, tag@),
{
    let n: usize = s.len();
    let mut i: usize = 0;
    proof {
        assert(s@.subrange(0, n as int) =~= s@);
    }
    while i < n
        invariant
            n == s@.len(),
            0 <= i <= n,
            lookup_tag(s@, tag@) == lookup_tag(s@.subrange(i as int, n as int), tag@),
        decreases n - i,
    {
        let suffix = Ghost(s@.subrange(i as int, n as int));
        if string_eq(&s[i].tag, tag) {
            proof {
                assert(suffix@[0] == s@[i as int]);
            }
            return Some(s[i].score);
        }
        i = i + 1;
        proof {
            assert(suffix@[0] == s@[i - 1]);
            assert(suffix@.drop_first() =~= s@.subrange(i as int, n as int));
        }
    }
    proof {
        assert(s@.subrange(n as int, n as int) =~= Seq::<TagScore>::empty());
    }
    None
}

/// Compare two strings for equality.
fn string_eq(a: &String, b: &String) -> (r: bool)
    ensures
        r <==> a@ == b@,
{
    a.eq(b)
}

/// Running totals of the importance-weighted components over a candidate's
/// tags, with the count of tags that found an importance entry.
pub open spec fn shared_sum(cand: Seq<TagScore>, imps: Seq<TagScore>) -> (int, int, int, int)
    decreases cand.len(),
{
    if cand.len() == 0 {
        (0, 0, 0, 0)
    } else {
        let rest = shared_sum(cand.drop_last(), imps);
        match lookup_tag(imps, cand.last().tag@) {
            Some(imp) => (
                rest.0 + fmul(imp.rating as int, cand.last().score.rating as int),
                rest.1 + fmul(imp.deviation as int, cand.last().score.deviation as int),
                rest.2 + fmul(imp.volatility as int, cand.last().score.volatility as int),
                rest.3 + 1,
            ),
            None => rest,
        }
    }
}

/// A candidate's composite score: the importance-weighted average over its
/// shared tags, or nothing when no tag is shared.
pub open spec fn spec_candidate_score(cand: Seq<TagScore>, imps: Seq<TagScore>) -> Option<
    ScaledRatingData,
> {
    let s = shared_sum(cand, imps);
    if s.3 == 0 {
        None
    } else {
        Some(
            ScaledRatingData {
                rating: tdiv(s.0, s.3) as i64,
                deviation: tdiv(s.1, s.3) as i64,
                volatility: tdiv(s.2, s.3) as i64,
            },
        )
    }
}

/// Every importance vector in the list is a fraction vector.
pub open spec fn all_importance(s: Seq<TagScore>) -> bool {
    forall|i: int| 0 <= i < s.len() ==> is_importance((#[trigger] s[i]).score)
}

/// A weighted term never exceeds the rating component it scales.
proof fn lemma_weighted_term_bound(imp: int, x: int)
    requires
        0 <= imp <= SCALE,
        in_magnitude(x),
    ensures
        abs_int(fmul(imp, x)) <= abs_int(x),
{
    let p = imp * x;
    let ax = abs_int(x);
    if x >= 0 {
        assert(p >= 0 && p == imp * ax) by (nonlinear_arith)
            requires
                p == imp * x && imp >= 0 && x >= 0 && ax == x,
        ;
    } else {
        assert(p <= 0 && -p == imp * ax) by (nonlinear_arith)
            requires
                p == imp * x && imp >= 0 && x < 0 && ax == -x,
        ;
    }
    assert(abs_int(p) == imp * ax);
    assert(imp * ax <= SCALE * ax) by (nonlinear_arith)
        requires
            0 <= imp <= SCALE as int && ax >= 0,
    ;
    lemma_div_le_factor(abs_int(p), SCALE as int, abs_int(x));
    assert(abs_int(tdiv(p, SCALE as int)) == abs_int(p) / (SCALE as int));
}

/// What `lookup_tag` finds in an importance list is a fraction vector.
proof fn lemma_lookup_is_importance(s: Seq<TagScore>, tag: Seq<char>)
    requires
        all_importance(s),
        lookup_tag(s, tag) is Some,
    ensures
        is_importance(lookup_tag(s, tag)->Some_0),
    decreases s.len(),
{
    if s.len() > 0 && s[0].tag@ != tag {
        assert(all_importance(s.drop_first())) by {
            assert(forall|j: int|
                0 <= j < s.len() - 1 ==> (#[trigger] s.drop_first()[j]) == s[j + 1]);
        }
        lemma_lookup_is_importance(s.drop_first(), tag);
    }
}

/// Score one candidate: the importance-weighted average of its shared-tag
/// ratings.
///
/// Fails with [`EngineError::InvariantViolation`] exactly when the
/// candidate shares no tag with the importance list — the candidate set is
/// built from shared tags, so such a candidate marks an inconsistency.
pub fn candidate_score(cand: &Vec<TagScore>, imps: &Vec<TagScore>) -> (r: Result<
    ScaledRatingData,
    EngineError,
>)
    requires
        all_wf(cand@),
        all_importance(imps@),
    ensures
        r matches Ok(score) ==> {
            &&& Some(score) == spec_candidate_score(cand@, imps@)
            &&& score.wf()
        },
        r is Err <==> shared_sum(cand@, imps@).3 == 0,
        r is Err ==> r == Err::<ScaledRatingData, EngineError>(EngineError::InvariantViolation),
{
    let mut ar: i128 = 0;
    let mut ad: i128 = 0;
    let mut av: i128 = 0;
    let mut count: usize = 0;
    let n: usize = cand.len();
    let mut i: usize = 0;
    while i < n
        invariant
            n == cand@.len(),
            0 <= i <= n,
            all_wf(cand@),
            all_importance(imps@),
            (ar as int, ad as int, av as int, count as int) == shared_sum(
                cand@.subrange(0, i as int),
                imps@,
            ),
            count <= i,
            abs_int(ar as int) <= count * MAX_MAGNITUDE,
            abs_int(ad as int) <= count * MAX_MAGNITUDE,
            abs_int(av as int) <= count * MAX_MAGNITUDE,
        decreases n - i,
    {
        let ghost prefix = cand@.subrange(0, i as int);
        match find_tag(imps, &cand[i].tag) {
            Some(imp) => {
                proof {
                    lemma_lookup_is_importance(imps@, cand@[i as int].tag@);
                    assert(cand@[i as int].score.wf());
                    lemma_weighted_term_bound(
                        imp.rating as int,
                        cand@[i as int].score.rating as int,
                    );
                    lemma_weighted_term_bound(
                        imp.deviation as int,
                        cand@[i as int].score.deviation as int,
                    );
                    lemma_weighted_term_bound(
                        imp.volatility as int,
                        cand@[i as int].score.volatility as int,
                    );
                    assert(count * MAX_MAGNITUDE + MAX_MAGNITUDE == (count + 1) * MAX_MAGNITUDE)
                        by (nonlinear_arith);
                    assert((count + 1) * MAX_MAGNITUDE <= 0x1_0000_0000_0000_0000 * MAX_MAGNITUDE)
                        by (nonlinear_arith)
                        requires
                            count + 1 <= 0x1_0000_0000_0000_0000,
                    ;
                }
                let t = &cand[i].score;
                ar = ar + fixed_mul_wide(imp.rating, t.rating);
                ad = ad + fixed_mul_wide(imp.deviation, t.deviation);
                av = av + fixed_mul_wide(imp.volatility, t.volatility);
                count = count + 1;
            },
            None => {},
        }
        i = i + 1;
        proof {
            let next = cand@.subrange(0, i as int);
            assert(next.drop_last() =~= prefix);
            assert(next.last() == cand@[i - 1]);
        }
    }
    proof {
        assert(cand@.subrange(0, n as int) =~= cand@);
    }
    if count == 0 {
        Err(EngineError::InvariantViolation)
    } else {
        proof {
            lemma_avg_in_magnitude(ar as int, count as int);
            lemma_avg_in_magnitude(ad as int, count as int);
            lemma_avg_in_magnitude(av as int, count as int);
        }
        let rating: i128 = crate::rating::tdiv_i128_any(ar, count as i128);
        let deviation: i128 = crate::rating::tdiv_i128_any(ad, count as i128);
        let volatility: i128 = crate::rating::tdiv_i128_any(av, count as i128);
        Ok(
            ScaledRatingData {
                rating: rating as i64,
                deviation: deviation as i64,
                volatility: volatility as i64,
            },
        )
    }
}

/// An average of components bounded by the domain stays in the domain.
proof fn lemma_avg_in_magnitude(a: int, c: int)
    requires
        c >= 1,
        abs_int(a) <= c * MAX_MAGNITUDE,
    ensures
        in_magnitude(tdiv(a, c)),
{
    lemma_div_le_factor(abs_int(a), c, MAX_MAGNITUDE as int);
    assert(abs_int(tdiv(a, c)) == abs_int(a) / c);
}

/// Fixed-point product of an importance fraction and a component, widened.
fn fixed_mul_wide(imp: i64, x: i64) -> (r: i128)
    requires
        0 <= imp <= SCALE,
        in_magnitude(x as int),
    ensures
        r == fmul(imp as int, x as int),
{
    proof {
        crate::rating::lemma_mul_magnitude(imp as int, x as int, MAX_MAGNITUDE as int);
    }
    let prod: i128 = (imp as i128) * (x as i128);
    crate::rating::tdiv_i128_any(prod, SCALE as i128)
}


/// Ranking order never places a greater vector before a lesser one.
pub open spec fn rating_le(a: ScaledRatingData, b: ScaledRatingData) -> bool {
    rating_order(a, b) != Ordering::Greater
}

/// The list ascends under the rating order.
pub open spec fn sorted_by_rating(s: Seq<(String, ScaledRatingData)>) -> bool {
    forall|i: int, j: int| 0 <= i < j < s.len() ==> rating_le(#[trigger] s[i].1, #[trigger] s[j].1)
}

/// No link id appears twice.
pub open spec fn distinct_ids(s: Seq<(String, ScaledRatingData)>) -> bool {
    forall|i: int, j: int| 0 <= i < j < s.len() ==> (#[trigger] s[i]).0@ != (#[trigger] s[j]).0@
}

/// Whether the first vector ranks strictly below the second.
fn rating_less(a: &ScaledRatingData, b: &ScaledRatingData) -> (r: bool)
    ensures
        r <==> rating_order(*a, *b) == Ordering::Less,
{
    matches!(a.partial_cmp(b), Some(Ordering::Less))
}

/// Sort candidates ascending under the rating order.
///
/// The result is a permutation of the input; distinct ids stay distinct.
pub fn sort_candidates(items: Vec<(String, ScaledRatingData)>) -> (r: Vec<
    (String, ScaledRatingData),
>)
    ensures
        sorted_by_rating(r@),
        r@.to_multiset() == items@.to_multiset(),
        r@.len() == items@.len(),
        forall|i: int| 0 <= i < r@.len() ==> items@.contains(#[trigger] r@[i]),
        distinct_ids(items@) ==> distinct_ids(r@),
{
    broadcast use vstd::seq_lib::group_to_multiset_ensures;

    let mut rest = items;
    let mut out: Vec<(String, ScaledRatingData)> = Vec::new();
    let ghost orig = rest@;
    while rest.len() > 0
        invariant
            out@.to_multiset().add(rest@.to_multiset()) =~= orig.to_multiset(),
            out@.len() + rest@.len() == orig.len(),
            sorted_by_rating(out@),
            forall|i: int, j: int|
                0 <= i < out@.len() && 0 <= j < rest@.len() ==> rating_le(
                    #[trigger] out@[i].1,
                    #[trigger] rest@[j].1,
                ),
            forall|i: int| 0 <= i < out@.len() ==> orig.contains(#[trigger] out@[i]),
            forall|i: int| 0 <= i < rest@.len() ==> orig.contains(#[trigger] rest@[i]),
            distinct_ids(orig) ==> distinct_ids(out@) && distinct_ids(rest@) && (forall|
                i: int,
                j: int,
            |
                0 <= i < out@.len() && 0 <= j < rest@.len() ==> (#[trigger] out@[i]).0@ != (
                #[trigger] rest@[j]).0@),
        decreases rest@.len(),
    {
        let mut min_idx: usize = 0;
        let mut k: usize = 1;
        while k < rest.len()
            invariant
                rest@.len() > 0,
                min_idx < k <= rest@.len(),
                forall|j: int| 0 <= j < k ==> rating_le(rest@[min_idx as int].1, #[trigger] rest@[j].1),
            decreases rest@.len() - k,
        {
            if rating_less(&rest[k].1, &rest[min_idx].1) {
                min_idx = k;
            }
            k = k + 1;
        }
        let ghost prev = rest@;
        let x = rest.remove(min_idx);
        proof {
            assert(prev.contains(x)) by {
                assert(prev[min_idx as int] == x);
            }
            lemma_remove_pointwise(prev, min_idx as int);
            broadcast use vstd::multiset::group_multiset_axioms;

            vstd::seq_lib::to_multiset_remove(prev, min_idx as int);
            vstd::seq_lib::to_multiset_build(out@, x);
            vstd::seq_lib::to_multiset_contains(prev, x);
            assert(rest@ == prev.remove(min_idx as int));
            assert(prev.to_multiset().count(x) > 0);
            assert(out@.push(x).to_multiset().add(rest@.to_multiset()) =~= orig.to_multiset());
        }
        out.push(x);
    }
    proof {
        assert(rest@.to_multiset() =~= Multiset::<(String, ScaledRatingData)>::empty());
        assert(out@.to_multiset() =~= orig.to_multiset());
    }
    out
}

/// After removing index `i`, every element is one of the old elements, and
/// the old positions shift down by at most one.
proof fn lemma_remove_pointwise(s: Seq<(String, ScaledRatingData)>, i: int)
    requires
        0 <= i < s.len(),
    ensures
        s.remove(i).len() == s.len() - 1,
        forall|k: int| 0 <= k < i ==> #[trigger] s.remove(i)[k] == s[k],
        forall|k: int| i <= k < s.len() - 1 ==> #[trigger] s.remove(i)[k] == s[k + 1],
{
    s.remove_ensures(i);
}

/// Return the items in a uniformly arbitrary order.
///
/// The result is a permutation of the input; distinct ids stay distinct.
pub fn shuffle(items: Vec<(String, ScaledRatingData)>, rng: &mut PcgThreadRng) -> (r: Vec<
    (String, ScaledRatingData),
>)
    ensures
        r@.to_multiset() == items@.to_multiset(),
        r@.len() == items@.len(),
        forall|i: int| 0 <= i < r@.len() ==> items@.contains(#[trigger] r@[i]),
        distinct_ids(items@) ==> distinct_ids(r@),
{
    broadcast use vstd::seq_lib::group_to_multiset_ensures;

    let mut rest = items;
    let mut out: Vec<(String, ScaledRatingData)> = Vec::new();
    let ghost orig = rest@;
    while rest.len() > 0
        invariant
            out@.to_multiset().add(rest@.to_multiset()) =~= orig.to_multiset(),
            out@.len() + rest@.len() == orig.len(),
            forall|i: int| 0 <= i < out@.len() ==> orig.contains(#[trigger] out@[i]),
            forall|i: int| 0 <= i < rest@.len() ==> orig.contains(#[trigger] rest@[i]),
            distinct_ids(orig) ==> distinct_ids(out@) && distinct_ids(rest@) && (forall|
                i: int,
                j: int,
            |
                0 <= i < out@.len() && 0 <= j < rest@.len() ==> (#[trigger] out@[i]).0@ != (
                #[trigger] rest@[j]).0@),
        decreases rest@.len(),
    {
        let j = rng.gen_index(rest.len());
        let ghost prev = rest@;
        let x = rest.remove(j);
        proof {
            assert(prev.contains(x)) by {
                assert(prev[j as int] == x);
            }
            lemma_remove_pointwise(prev, j as int);
            broadcast use vstd::multiset::group_multiset_axioms;

            vstd::seq_lib::to_multiset_remove(prev, j as int);
            vstd::seq_lib::to_multiset_build(out@, x);
            vstd::seq_lib::to_multiset_contains(prev, x);
            assert(rest@ == prev.remove(j as int));
            assert(prev.to_multiset().count(x) > 0);
            assert(out@.push(x).to_multiset().add(rest@.to_multiset()) =~= orig.to_multiset());
        }
        out.push(x);
    }
    proof {
        assert(rest@.to_multiset() =~= Multiset::<(String, ScaledRatingData)>::empty());
        assert(out@.to_multiset() =~= orig.to_multiset());
    }
    out
}


/// The length of one score tier: a quarter of the candidate list, rounded
/// up.
pub open spec fn segment_length(n: int) -> int {
    if n % 4 == 0 {
        n / 4
    } else {
        n / 4 + 1
    }
}

/// How many items tier sampling yields: reading tiers of length `seg` from
/// the top of a list ending at `seg_end`, it takes up to `take` items from
/// the first tier, one fewer from each tier after, and stops at the bottom
/// of the list or after the `take == 0` tier.
pub open spec fn take_from(seg_end: int, seg: int, take: int) -> int
    decreases take,
{
    if take <= 0 || seg_end <= 0 {
        0
    } else {
        let start = if seg_end > seg {
            seg_end - seg
        } else {
            0
        };
        let size = seg_end - start;
        (if take < size {
            take
        } else {
            size
        }) + take_from(start, seg, take - 1)
    }
}

/// How many items diversity selection hands back for `n` candidates: up to
/// four from the top quarter, three from the next, two, then one.
pub open spec fn spec_diverse_count(n: int) -> int {
    take_from(n, segment_length(n), 4)
}

/// Diversity selection never returns more items than there are candidates,
/// never more than ten, and for a list of thirteen or more candidates it
/// returns exactly ten.
pub proof fn lemma_diverse_count(n: int)
    requires
        n >= 0,
    ensures
        0 <= spec_diverse_count(n) <= n,
        spec_diverse_count(n) <= 10,
        n >= 13 ==> spec_diverse_count(n) == 10,
        n >= 1 ==> spec_diverse_count(n) >= 1,
{
    let seg = segment_length(n);
    vstd::arithmetic::div_mod::lemma_fundamental_div_mod(n, 4);
    vstd::arithmetic::div_mod::lemma_mod_bound(n, 4);
    if n >= 1 {
        lemma_take_from_bounds(n, seg, 4);
    }
    if n >= 13 {
        vstd::arithmetic::div_mod::lemma_div_is_ordered(13, n, 4);
        assert(n / 4 >= 3);
        assert(4 * seg >= n && seg >= 4 && n > 3 * seg + 1 - (if n % 4 == 0 { 0int } else { n % 4 }));
        assert(spec_diverse_count(n) == 10) by {
            reveal_with_fuel(take_from, 6);
            let s1 = if n > seg { n - seg } else { 0int };
            let s2 = if s1 > seg { s1 - seg } else { 0int };
            let s3 = if s2 > seg { s2 - seg } else { 0int };
            assert(s1 == n - seg && s2 == n - 2 * seg && s3 == n - 3 * seg);
            assert(s3 >= 1);
            assert(take_from(s3, seg, 1) == 1);
            assert(take_from(s2, seg, 2) == 2 + take_from(s3, seg, 1));
            assert(take_from(s1, seg, 3) == 3 + take_from(s2, seg, 2));
            assert(take_from(n, seg, 4) == 4 + take_from(s1, seg, 3));
        }
    }
}

/// Tier sampling takes at least one item from a nonempty list, never more
/// than the list holds, and never more than `take + (take-1) + ... + 1`.
proof fn lemma_take_from_bounds(seg_end: int, seg: int, take: int)
    requires
        seg >= 1,
        take >= 0,
        0 <= seg_end <= take * seg,
    ensures
        0 <= take_from(seg_end, seg, take) <= seg_end,
        take_from(seg_end, seg, take) <= take * (take + 1) / 2,
        take >= 1 && seg_end >= 1 ==> take_from(seg_end, seg, take) >= 1,
    decreases take,
{
    if take <= 0 || seg_end <= 0 {
    } else {
        let start = if seg_end > seg {
            seg_end - seg
        } else {
            0
        };
        assert(start <= (take - 1) * seg) by (nonlinear_arith)
            requires
                take >= 1 && seg >= 0 && seg_end <= take * seg && start == (if seg_end > seg {
                    seg_end - seg
                } else {
                    0int
                }),
        ;
        lemma_take_from_bounds(start, seg, take - 1);
        let size = seg_end - start;
        assert(take_from(seg_end, seg, take) == (if take < size {
            take
        } else {
            size
        }) + take_from(start, seg, take - 1));
        assert((if take < size {
            take
        } else {
            size
        }) >= 1);
        assert((take - 1) * ((take - 1) + 1) / 2 + take <= take * (take + 1) / 2)
            by (nonlinear_arith)
            requires
                take >= 1,
        ;
    }
}

/// Ids of two id-distinct slices of one id-distinct list never collide.
pub open spec fn ids_disjoint(
    a: Seq<(String, ScaledRatingData)>,
    b: Seq<(String, ScaledRatingData)>,
) -> bool {
    forall|i: int, j: int|
        0 <= i < a.len() && 0 <= j < b.len() ==> (#[trigger] a[i]).0@ != (#[trigger] b[j]).0@
}

/// Per-tier composition of a selection: reading tiers of length `seg`
/// downward from position `seg_end` of `sorted`, the first
/// `min(take, tier size)` entries of `feed` are drawn, without
/// replacement, from the topmost tier, the next batch from the tier below
/// with one fewer requested, and so on until the bottom of the list or the
/// zero-take tier.
pub open spec fn tier_sampled(
    feed: Seq<(String, ScaledRatingData)>,
    sorted: Seq<(String, ScaledRatingData)>,
    seg_end: int,
    seg: int,
    take: int,
) -> bool
    decreases take,
{
    if take <= 0 || seg_end <= 0 {
        feed.len() == 0
    } else {
        let start = if seg_end > seg {
            seg_end - seg
        } else {
            0
        };
        let cnt = if take < seg_end - start {
            take
        } else {
            seg_end - start
        };
        &&& feed.len() >= cnt
        &&& feed.subrange(0, cnt).to_multiset().subset_of(
            sorted.subrange(start, seg_end).to_multiset(),
        )
        &&& tier_sampled(feed.subrange(cnt, feed.len() as int), sorted, start, seg, take - 1)
    }
}

/// A selection drawn from a prefix composes the same tiers as one drawn
/// from the whole list, since the tiers below `seg_end` lie inside the
/// prefix.
proof fn lemma_tier_sampled_prefix(
    feed: Seq<(String, ScaledRatingData)>,
    prefix: Seq<(String, ScaledRatingData)>,
    full: Seq<(String, ScaledRatingData)>,
    seg_end: int,
    seg: int,
    take: int,
)
    requires
        seg >= 1,
        0 <= seg_end <= prefix.len() <= full.len(),
        prefix == full.subrange(0, prefix.len() as int),
        tier_sampled(feed, prefix, seg_end, seg, take),
    ensures
        tier_sampled(feed, full, seg_end, seg, take),
    decreases take,
{
    if take <= 0 || seg_end <= 0 {
    } else {
        let start = if seg_end > seg {
            seg_end - seg
        } else {
            0
        };
        let cnt = if take < seg_end - start {
            take
        } else {
            seg_end - start
        };
        assert(prefix.subrange(start, seg_end) =~= full.subrange(start, seg_end));
        lemma_tier_sampled_prefix(
            feed.subrange(cnt, feed.len() as int),
            prefix,
            full,
            start,
            seg,
            take - 1,
        );
    }
}

/// Sample tiers of length `seg_len` from the top of `rest` downward,
/// taking up to `take` items from the topmost tier and one fewer from each
/// tier below.
fn select_tiers(
    rest: Vec<(String, ScaledRatingData)>,
    seg_len: usize,
    take: usize,
    rng: &mut PcgThreadRng,
) -> (feed: Vec<(String, ScaledRatingData)>)
    requires
        seg_len >= 1,
    ensures
        feed@.len() == take_from(rest@.len() as int, seg_len as int, take as int),
        tier_sampled(feed@, rest@, rest@.len() as int, seg_len as int, take as int),
        forall|i: int| 0 <= i < feed@.len() ==> rest@.contains(#[trigger] feed@[i]),
        distinct_ids(rest@) ==> distinct_ids(feed@),
    decreases take,
{
    broadcast use vstd::seq_lib::group_to_multiset_ensures;

    if take == 0 || rest.len() == 0 {
        return Vec::new();
    }
    let ghost orig = rest@;
    let mut rest = rest;
    let start: usize = if rest.len() > seg_len {
        rest.len() - seg_len
    } else {
        0
    };
    let mut seg = rest.split_off(start);
    let ghost seg0 = seg@;
    proof {
        assert(rest@ =~= orig.subrange(0, start as int));
        assert(seg0 =~= orig.subrange(start as int, orig.len() as int));
        assert(forall|i: int| 0 <= i < seg0.len() ==> #[trigger] seg0[i] == orig[start + i]);
        if distinct_ids(orig) {
            assert(distinct_ids(seg0));
            assert(distinct_ids(rest@));
        }
    }
    let mut sample: Vec<(String, ScaledRatingData)> = Vec::new();
    let mut t: usize = take;
    while t >= 1 && seg.len() > 0
        invariant
            t <= take,
            seg@.len() + (take - t) == seg0.len(),
            sample@.len() == take - t,
            sample@.to_multiset().add(seg@.to_multiset()) =~= seg0.to_multiset(),
            forall|i: int| 0 <= i < sample@.len() ==> seg0.contains(#[trigger] sample@[i]),
            forall|i: int| 0 <= i < seg@.len() ==> seg0.contains(#[trigger] seg@[i]),
            distinct_ids(seg0) ==> distinct_ids(sample@) && distinct_ids(seg@) && ids_disjoint(
                sample@,
                seg@,
            ),
        decreases t,
    {
        let j = rng.gen_index(seg.len());
        let ghost seg_prev = seg@;
        let x = seg.remove(j);
        proof {
            broadcast use vstd::multiset::group_multiset_axioms;

            lemma_remove_pointwise(seg_prev, j as int);
            vstd::seq_lib::to_multiset_remove(seg_prev, j as int);
            vstd::seq_lib::to_multiset_build(sample@, x);
            vstd::seq_lib::to_multiset_contains(seg_prev, x);
            assert(seg_prev.contains(x)) by {
                assert(seg_prev[j as int] == x);
            }
            assert(seg0.contains(x));
            assert(sample@.push(x).to_multiset().add(seg@.to_multiset()) =~= seg0.to_multiset());
        }
        sample.push(x);
        t = t - 1;
    }
    let ghost cnt = sample@.len() as int;
    let ghost sample0 = sample@;
    proof {
        assert(cnt == if (take as int) < seg0.len() {
            take as int
        } else {
            seg0.len() as int
        });
        assert(sample0.to_multiset().subset_of(seg0.to_multiset())) by {
            broadcast use vstd::multiset::group_multiset_axioms;

        }
    }
    let tail = select_tiers(rest, seg_len, take - 1, rng);
    let ghost tail0 = tail@;
    let ghost rest0 = rest@;
    let mut feed = sample;
    let mut tail = tail;
    feed.append(&mut tail);
    proof {
        assert(feed@.subrange(0, cnt) =~= sample0);
        assert(feed@.subrange(cnt, feed@.len() as int) =~= tail0);
        assert(take_from(orig.len() as int, seg_len as int, take as int) == cnt + take_from(
            start as int,
            seg_len as int,
            take as int - 1,
        ));
        lemma_tier_sampled_prefix(
            tail0,
            rest0,
            orig,
            start as int,
            seg_len as int,
            take as int - 1,
        );
        assert(tier_sampled(feed@, orig, orig.len() as int, seg_len as int, take as int));
        assert forall|i: int| 0 <= i < feed@.len() implies orig.contains(#[trigger] feed@[i]) by {
            if i < cnt {
                assert(seg0.contains(sample0[i]));
                let k = choose|k: int| 0 <= k < seg0.len() && #[trigger] seg0[k] == sample0[i];
                assert(orig[start + k] == feed@[i]);
            } else {
                assert(rest0.contains(tail0[i - cnt]));
                let k = choose|k: int| 0 <= k < rest0.len() && #[trigger] rest0[k] == tail0[i - cnt];
                assert(orig[k] == feed@[i]);
            }
        }
        if distinct_ids(orig) {
            assert(distinct_ids(tail0));
            assert forall|i: int, j: int| 0 <= i < j < feed@.len() implies (#[trigger] feed@[i]).0@
                != (#[trigger] feed@[j]).0@ by {
                if i < cnt && j >= cnt {
                    let a = choose|a: int| 0 <= a < seg0.len() && #[trigger] seg0[a] == sample0[i];
                    let b = choose|b: int|
                        0 <= b < rest0.len() && #[trigger] rest0[b] == tail0[j - cnt];
                    assert(orig[start + a] == feed@[i]);
                    assert(orig[b] == feed@[j]);
                    assert(b < start + a);
                }
            }
        }
    }
    feed
}

/// Partition the ascending candidate list into up to four tiers read from
/// the high end, each a quarter of the list rounded up, and sample four
/// items from the top tier, three from the next, two, then one — fewer
/// where a tier runs short.  The sampled items come back in tier order —
/// the tier composition is what `tier_sampled` states — and [`shuffle`]
/// then destroys that order.
pub fn select_diverse(sorted: Vec<(String, ScaledRatingData)>, rng: &mut PcgThreadRng) -> (feed:
    Vec<(String, ScaledRatingData)>)
    ensures
        feed@.len() == spec_diverse_count(sorted@.len() as int),
        feed@.len() <= sorted@.len(),
        feed@.len() <= 10,
        sorted@.len() >= 13 ==> feed@.len() == 10,
        tier_sampled(
            feed@,
            sorted@,
            sorted@.len() as int,
            segment_length(sorted@.len() as int),
            4,
        ),
        forall|i: int| 0 <= i < feed@.len() ==> sorted@.contains(#[trigger] feed@[i]),
        distinct_ids(sorted@) ==> distinct_ids(feed@),
{
    proof {
        lemma_diverse_count(sorted@.len() as int);
    }
    let n: usize = sorted.len();
    if n == 0 {
        return Vec::new();
    }
    let seg_len: usize = n / 4 + if n % 4 != 0 {
        1
    } else {
        0
    };
    select_tiers(sorted, seg_len, 4, rng)
}

/// No candidate id appears twice.
pub open spec fn candidate_ids_distinct(cs: Seq<Candidate>) -> bool {
    forall|i: int, j: int|
        0 <= i < j < cs.len() ==> (#[trigger] cs[i]).id@ != (#[trigger] cs[j]).id@
}

/// Every candidate's tag ratings are within the finite domain.
pub open spec fn candidates_wf(cs: Seq<Candidate>) -> bool {
    forall|i: int| 0 <= i < cs.len() ==> all_wf((#[trigger] cs[i]).tags@)
}

/// The account's absolute tag sum stays within the finite domain.
pub open spec fn sum_fits(tags: Seq<TagScore>) -> bool {
    in_magnitude(abs_sum(tags).0) && in_magnitude(abs_sum(tags).1) && in_magnitude(
        abs_sum(tags).2,
    )
}

/// The account's absolute tag sum as a rating vector.
pub open spec fn spec_tag_sum(tags: Seq<TagScore>) -> ScaledRatingData {
    ScaledRatingData {
        rating: abs_sum(tags).0 as i64,
        deviation: abs_sum(tags).1 as i64,
        volatility: abs_sum(tags).2 as i64,
    }
}

/// The per-tag importance list an account's tag ratings induce.
pub open spec fn spec_importances(tags: Seq<TagScore>) -> Seq<TagScore> {
    tags.map_values(
        |t: TagScore| TagScore { tag: t.tag, score: spec_importance(t.score, spec_tag_sum(tags)) },
    )
}

/// One feed entry names some candidate and carries that candidate's
/// composite score.
pub open spec fn entry_scored(
    entry: (String, ScaledRatingData),
    cs: Seq<Candidate>,
    tags: Seq<TagScore>,
) -> bool {
    exists|j: int|
        0 <= j < cs.len() && entry.0@ == (#[trigger] cs[j]).id@ && Some(entry.1)
            == spec_candidate_score(cs[j].tags@, spec_importances(tags))
}

/// Every feed entry names a candidate and carries that candidate's
/// composite score.
pub open spec fn feed_entries_scored(
    feed: Seq<(String, ScaledRatingData)>,
    cs: Seq<Candidate>,
    tags: Seq<TagScore>,
) -> bool {
    forall|i: int| 0 <= i < feed.len() ==> entry_scored(#[trigger] feed[i], cs, tags)
}

/// Some candidate shares no tag with the importance list.
pub open spec fn some_candidate_unshared(cs: Seq<Candidate>, imps: Seq<TagScore>) -> bool {
    exists|j: int| 0 <= j < cs.len() && shared_sum((#[trigger] cs[j]).tags@, imps).3 == 0
}

/// Produce a ranked, diversity-sampled feed for an account.
///
/// `account_tags` are the account's decayed per-tag ratings and
/// `candidates` the unseen links sharing tags with it, each with its own
/// decayed tag ratings; the caller gathered both and runs decay beforehand.
/// With no candidates the feed is empty and nothing else is computed.
/// Otherwise every candidate is scored by the importance-weighted average
/// of its shared-tag ratings, the candidates are sorted ascending and the
/// feed is sampled across score tiers and shuffled.  Each returned entry
/// carries a candidate's id and that candidate's composite score.
pub fn generate_feed(
    account_tags: &Vec<TagScore>,
    candidates: &Vec<Candidate>,
    rng: &mut PcgThreadRng,
) -> (r: Result<Vec<(String, ScaledRatingData)>, EngineError>)
    requires
        all_wf(account_tags@),
        candidates_wf(candidates@),
        candidate_ids_distinct(candidates@),
    ensures
        candidates@.len() == 0 ==> (r matches Ok(feed) && feed@.len() == 0),
        candidates@.len() > 0 ==> (r == Err::<Vec<(String, ScaledRatingData)>, EngineError>(
            EngineError::MagnitudeOverflow,
        ) <==> !sum_fits(account_tags@)),
        candidates@.len() > 0 && sum_fits(account_tags@) ==> (r == Err::<
            Vec<(String, ScaledRatingData)>,
            EngineError,
        >(EngineError::InvariantViolation) <==> some_candidate_unshared(
            candidates@,
            spec_importances(account_tags@),
        )),
        candidates@.len() > 0 && sum_fits(account_tags@) && !some_candidate_unshared(
            candidates@,
            spec_importances(account_tags@),
        ) ==> r is Ok,
        candidates@.len() > 0 ==> (r matches Ok(feed) ==> feed@.len() == spec_diverse_count(
            candidates@.len() as int,
        )),
        candidates@.len() > 0 ==> (r matches Ok(feed) ==> distinct_ids(feed@)),
        candidates@.len() > 0 ==> (r matches Ok(feed) ==> feed_entries_scored(
            feed@,
            candidates@,
            account_tags@,
        )),
{
    if candidates.len() == 0 {
        return Ok(Vec::new());
    }
    let sum = match tag_sum(account_tags) {
        Ok(s) => s,
        Err(e) => {
            return Err(e);
        },
    };
    let ghost spec_imps = spec_importances(account_tags@);
    let mut imps: Vec<TagScore> = Vec::new();
    let tag_count: usize = account_tags.len();
    let mut i: usize = 0;
    while i < tag_count
        invariant
            tag_count == account_tags@.len(),
            0 <= i <= tag_count,
            all_wf(account_tags@),
            sum_fits(account_tags@),
            sum == spec_tag_sum(account_tags@),
            sum.wf(),
            sum.rating >= 0 && sum.deviation >= 0 && sum.volatility >= 0,
            imps@.len() == i,
            forall|j: int|
                0 <= j < i ==> #[trigger] imps@[j] == (TagScore {
                    tag: account_tags@[j].tag,
                    score: spec_importance(account_tags@[j].score, spec_tag_sum(account_tags@)),
                }),
            all_importance(imps@),
        decreases tag_count - i,
    {
        proof {
            lemma_abs_sum_element(account_tags@, i as int);
        }
        let imp = importance(account_tags[i].score, sum);
        imps.push(TagScore { tag: account_tags[i].tag.clone(), score: imp });
        i = i + 1;
    }
    proof {
        assert(imps@ =~= spec_imps);
    }
    let mut scored: Vec<(String, ScaledRatingData)> = Vec::new();
    let cand_count: usize = candidates.len();
    let mut c: usize = 0;
    while c < cand_count
        invariant
            cand_count == candidates@.len(),
            cand_count > 0,
            0 <= c <= cand_count,
            sum_fits(account_tags@),
            candidates_wf(candidates@),
            candidate_ids_distinct(candidates@),
            all_importance(imps@),
            imps@ == spec_imps,
            spec_imps == spec_importances(account_tags@),
            scored@.len() == c,
            forall|j: int|
                0 <= j < c ==> {
                    &&& (#[trigger] scored@[j]).0@ == candidates@[j].id@
                    &&& Some(scored@[j].1) == spec_candidate_score(candidates@[j].tags@, spec_imps)
                },
            forall|j: int|
                0 <= j < c ==> shared_sum((#[trigger] candidates@[j]).tags@, spec_imps).3 != 0,
        decreases cand_count - c,
    {
        match candidate_score(&candidates[c].tags, &imps) {
            Ok(score) => {
                scored.push((candidates[c].id.clone(), score));
            },
            Err(e) => {
                proof {
                    assert(some_candidate_unshared(candidates@, spec_imps)) by {
                        assert(shared_sum((candidates@[c as int]).tags@, spec_imps).3 == 0);
                    }
                }
                return Err(e);
            },
        }
        c = c + 1;
    }
    proof {
        assert(!some_candidate_unshared(candidates@, spec_imps)) by {
            assert(forall|j: int|
                0 <= j < candidates@.len() ==> shared_sum(
                    (#[trigger] candidates@[j]).tags@,
                    spec_imps,
                ).3 != 0);
        }
        assert(distinct_ids(scored@));
    }
    let ghost scored_view = scored@;
    let sorted = sort_candidates(scored);
    let ghost sorted_view = sorted@;
    let selected = select_diverse(sorted, rng);
    let ghost selected_view = selected@;
    let feed = shuffle(selected, rng);
    proof {
        assert forall|i: int| 0 <= i < feed@.len() implies scored_view.contains(
            #[trigger] feed@[i],
        ) by {
            assert(selected_view.contains(feed@[i]));
            let k = choose|k: int| 0 <= k < selected_view.len() && selected_view[k] == feed@[i];
            assert(sorted_view.contains(selected_view[k]));
            let m = choose|m: int| 0 <= m < sorted_view.len() && sorted_view[m] == feed@[i];
            assert(scored_view.contains(sorted_view[m]));
        }
        assert forall|i: int| 0 <= i < feed@.len() implies entry_scored(
            #[trigger] feed@[i],
            candidates@,
            account_tags@,
        ) by {
            assert(scored_view.contains(feed@[i]));
            let j = choose|j: int|
                0 <= j < scored_view.len() && #[trigger] scored_view[j] == feed@[i];
            assert(0 <= j < candidates@.len() && (feed@[i]).0@ == (candidates@[j]).id@ && Some(
                feed@[i].1,
            ) == spec_candidate_score(candidates@[j].tags@, spec_importances(account_tags@)));
        }
        assert(feed_entries_scored(feed@, candidates@, account_tags@));
    }
    Ok(feed)
}

} // verus!
