use vstd::prelude::*;
use crate::heuristics::{
    SCALE, count_of, held, lemma_next_tier_above, next_tier, proximity, proximity_sum, slam_value,
    synergy_value, tier_term, weighted_parts, belt_chain_raw, active_count,
};
use crate::scoring::{
    Detail, Weights, detail_spec, final_score, multiplier, ranked, ranked_before, CatalogEntry,
};
use crate::heuristics::AttributeGroup;

verus! {

/// With no preferred attributes, proximity and synergy are 0.
pub proof fn lemma_no_preferred_gives_zero(counts: Map<Seq<char>, i32>, bps: Seq<(i32, i32)>)
    ensures
        proximity(counts, bps, seq![]) == 0,
        synergy_value(counts, seq![]) == 0,
{
}

proof fn lemma_empty_counts_sums(bps: Seq<(i32, i32)>, prefer: Seq<Seq<char>>)
    ensures
        proximity_sum(Map::empty(), bps, prefer) == 0,
        active_count(Map::empty(), prefer) == 0,
    decreases prefer.len(),
{
    if prefer.len() > 0 {
        lemma_empty_counts_sums(bps, prefer.drop_last());
    }
}

proof fn lemma_empty_parts_sum(weights: Seq<(String, i32)>)
    ensures
        weighted_parts(Map::empty(), weights) == 0,
    decreases weights.len(),
{
    if weights.len() > 0 {
        lemma_empty_parts_sum(weights.drop_last());
    }
}

/// With no attribute counts recorded, proximity and synergy are 0; with no
/// components held, the item-slam heuristic is 0.
pub proof fn lemma_empty_state_gives_zero(
    bps: Seq<(i32, i32)>,
    prefer: Seq<Seq<char>>,
    lowered: Seq<char>,
    weights: Seq<(String, i32)>,
)
    ensures
        proximity(Map::empty(), bps, prefer) == 0,
        synergy_value(Map::empty(), prefer) == 0,
        slam_value(Map::empty(), lowered, weights) == 0,
{
    lemma_empty_counts_sums(bps, prefer);
    lemma_empty_parts_sum(weights);
    assert(belt_chain_raw(Map::empty()) == 0);
}

proof fn lemma_same_next_tier(bps: Seq<(i32, i32)>, x: i32, y: i32)
    requires
        x <= y,
        next_tier(bps, x).is_some(),
        y < next_tier(bps, x).unwrap(),
    ensures
        next_tier(bps, y) == next_tier(bps, x),
{
    lemma_next_tier_above(bps, x);
    lemma_next_tier_above(bps, y);
    let n = next_tier(bps, x).unwrap();
    let j = choose|j: int| 0 <= j < bps.len() && bps[j].1 == n;
    assert(bps[j].1 > y);
    let m = next_tier(bps, y).unwrap();
    let k = choose|k: int| 0 <= k < bps.len() && bps[k].1 == m;
    assert(bps[k].1 > x);
}

proof fn lemma_sum_monotone(
    c1: Map<Seq<char>, i32>,
    c2: Map<Seq<char>, i32>,
    bps: Seq<(i32, i32)>,
    prefer: Seq<Seq<char>>,
)
    requires
        forall|k: Seq<char>| tier_term(bps, count_of(c1, k)) <= #[trigger] tier_term(
            bps,
            count_of(c2, k),
        ),
    ensures
        proximity_sum(c1, bps, prefer) <= proximity_sum(c2, bps, prefer),
    decreases prefer.len(),
{
    if prefer.len() > 0 {
        lemma_sum_monotone(c1, c2, bps, prefer.drop_last());
        assert(tier_term(bps, count_of(c1, prefer.last())) <= tier_term(
            bps,
            count_of(c2, prefer.last()),
        ));
    }
}

/// Attribute proximity never drops as one attribute's count rises towards
/// (but stays below) the next breakpoint above it, all else fixed.
pub proof fn lemma_proximity_monotone(
    counts: Map<Seq<char>, i32>,
    bps: Seq<(i32, i32)>,
    prefer: Seq<Seq<char>>,
    attr: Seq<char>,
    y: i32,
)
    requires
        counts.contains_key(attr),
        counts[attr] <= y,
        next_tier(bps, counts[attr]).is_some(),
        y < next_tier(bps, counts[attr]).unwrap(),
    ensures
        proximity(counts, bps, prefer) <= proximity(counts.insert(attr, y), bps, prefer),
{
    let c2 = counts.insert(attr, y);
    let x = counts[attr];
    lemma_same_next_tier(bps, x, y);
    let n = next_tier(bps, x).unwrap() as int;
    assert forall|k: Seq<char>| tier_term(bps, count_of(counts, k)) <= #[trigger] tier_term(
        bps,
        count_of(c2, k),
    ) by {
        if k == attr {
            let sc = SCALE as int;
            let dx = n - x;
            let dy = n - y;
            assert(sc / dx <= sc / dy) by (nonlinear_arith)
                requires
                    1 <= dy <= dx,
                    sc >= 0,
            ;
        } else {
            assert(count_of(c2, k) == count_of(counts, k));
        }
    }
    lemma_sum_monotone(counts, c2, bps, prefer);
}

/// Ties aside, a higher final score ranks first: in any ranking, a candidate
/// whose score is higher stands before one whose score is lower.
pub proof fn lemma_higher_score_ranks_first(scores: Seq<i128>, r: Seq<usize>, pa: int, pb: int)
    requires
        ranked(scores, r),
        0 <= pa < r.len(),
        0 <= pb < r.len(),
        r[pa] < scores.len(),
        r[pb] < scores.len(),
        scores[r[pa] as int] > scores[r[pb] as int],
    ensures
        pa < pb,
{
    if pb < pa {
        assert(ranked_before(scores, r[pb] as int, r[pa] as int));
    }
}

pub open spec fn all_zero(d: Detail) -> bool {
    d.f_trait == 0 && d.f_items == 0 && d.f_stage == 0 && d.f_hp == 0 && d.f_syn == 0 && d.f_conf
        == 0
}

/// Two candidates with the same positive base score, one with every heuristic
/// 0 and one with only the conflict signal set: under a negative conflict
/// coefficient the second scores lower, so it ranks below the first.
pub proof fn lemma_conflict_ranks_below(
    w: Weights,
    a: Detail,
    b: Detail,
    scores: Seq<i128>,
    r: Seq<usize>,
    pa: int,
    pb: int,
)
    requires
        w.w_conflict < 0,
        a.base == b.base,
        a.base > 0,
        all_zero(a),
        all_zero(Detail { f_conf: 0, ..b }),
        b.f_conf == SCALE,
        ranked(scores, r),
        0 <= pa < r.len(),
        0 <= pb < r.len(),
        r[pa] < scores.len(),
        r[pb] < scores.len(),
        scores[r[pa] as int] == final_score(w, a),
        scores[r[pb] as int] == final_score(w, b),
    ensures
        final_score(w, b) < final_score(w, a),
        pa < pb,
{
    let base = a.base as int;
    let m = multiplier(w, b);
    assert(m < multiplier(w, a));
    assert(base * m < base * multiplier(w, a)) by (nonlinear_arith)
        requires
            base > 0,
            m < multiplier(w, a),
    ;
    lemma_higher_score_ranks_first(scores, r, pa, pb);
}

/// Scoring is a function of its inputs: two scorings of the same candidate
/// against the same catalog, configuration and state agree exactly.
pub proof fn lemma_scoring_deterministic(
    r1: (i128, i64, Detail),
    r2: (i128, i64, Detail),
    augment: Seq<char>,
    cat: Seq<CatalogEntry>,
    groups: Seq<AttributeGroup>,
    components: Seq<(String, i32)>,
    w: Weights,
    breaks: Seq<(i32, i32)>,
    stage: Seq<char>,
    hp: i32,
    traits: Map<Seq<char>, i32>,
    parts: Map<Seq<char>, i32>,
    taken: Seq<Seq<char>>,
)
    requires
        r1.2 == detail_spec(augment, cat, groups, components, breaks, stage, hp, traits, parts, taken),
        r2.2 == detail_spec(augment, cat, groups, components, breaks, stage, hp, traits, parts, taken),
        r1.1 == multiplier(w, r1.2),
        r2.1 == multiplier(w, r2.2),
        r1.0 == final_score(w, r1.2),
        r2.0 == final_score(w, r2.2),
    ensures
        r1 == r2,
{
}

/// Sum of `f` over the items of `s`.
pub open spec fn sum_over(s: Seq<Seq<char>>, f: spec_fn(Seq<char>) -> int) -> int
    decreases s.len(),
{
    if s.len() == 0 {
        0
    } else {
        sum_over(s.drop_last(), f) + f(s.last())
    }
}

proof fn lemma_sum_remove(s: Seq<Seq<char>>, k: int, f: spec_fn(Seq<char>) -> int)
    requires
        0 <= k < s.len(),
    ensures
        sum_over(s, f) == sum_over(s.remove(k), f) + f(s[k]),
    decreases s.len(),
{
    if k == s.len() - 1 {
        assert(s.remove(k) =~= s.drop_last());
    } else {
        let d = s.drop_last();
        lemma_sum_remove(d, k, f);
        assert(s.remove(k).drop_last() =~= d.remove(k));
        assert(s.remove(k).last() == s.last());
    }
}

/// A sum over a sequence depends only on which items it holds, not on
/// their order.
pub proof fn lemma_sum_order_free(s1: Seq<Seq<char>>, s2: Seq<Seq<char>>, f: spec_fn(Seq<char>) -> int)
    requires
        s1.to_multiset() == s2.to_multiset(),
    ensures
        sum_over(s1, f) == sum_over(s2, f),
    decreases s1.len(),
{
    broadcast use vstd::seq_lib::group_to_multiset_ensures;

    if s1.len() == 0 {
        assert(s2.to_multiset().len() == 0);
        assert(s2.len() == 0);
    } else {
        let x = s1.last();
        let d = s1.drop_last();
        assert(s1 =~= d.push(x));
        assert(s1.to_multiset().count(x) > 0);
        assert(s2.contains(x));
        let k = choose|k: int| 0 <= k < s2.len() && s2[k] == x;
        assert(d.to_multiset() =~= s1.to_multiset().remove(x));
        assert(s2.remove(k).to_multiset() =~= s2.to_multiset().remove(x));
        lemma_sum_order_free(d, s2.remove(k), f);
        lemma_sum_remove(s2, k, f);
    }
}

proof fn lemma_proximity_sum_is_sum(
    counts: Map<Seq<char>, i32>,
    bps: Seq<(i32, i32)>,
    prefer: Seq<Seq<char>>,
)
    ensures
        proximity_sum(counts, bps, prefer) == sum_over(
            prefer,
            |k: Seq<char>| tier_term(bps, count_of(counts, k)),
        ),
    decreases prefer.len(),
{
    if prefer.len() > 0 {
        lemma_proximity_sum_is_sum(counts, bps, prefer.drop_last());
    }
}

proof fn lemma_active_count_is_sum(counts: Map<Seq<char>, i32>, prefer: Seq<Seq<char>>)
    ensures
        active_count(counts, prefer) == sum_over(
            prefer,
            |k: Seq<char>| if held(counts, k) != 0 { 1int } else { 0int },
        ),
    decreases prefer.len(),
{
    if prefer.len() > 0 {
        lemma_active_count_is_sum(counts, prefer.drop_last());
    }
}

/// Proximity and synergy do not depend on the order of the preferred
/// attributes: any reordering (duplicates kept) gives the same values.
pub proof fn lemma_preferred_order_free(
    counts: Map<Seq<char>, i32>,
    bps: Seq<(i32, i32)>,
    order_a: Seq<Seq<char>>,
    order_b: Seq<Seq<char>>,
)
    requires
        order_a.to_multiset() == order_b.to_multiset(),
    ensures
        proximity(counts, bps, order_a) == proximity(counts, bps, order_b),
        synergy_value(counts, order_a) == synergy_value(counts, order_b),
{
    lemma_proximity_sum_is_sum(counts, bps, order_a);
    lemma_proximity_sum_is_sum(counts, bps, order_b);
    lemma_sum_order_free(order_a, order_b, |k: Seq<char>| tier_term(bps, count_of(counts, k)));
    lemma_active_count_is_sum(counts, order_a);
    lemma_active_count_is_sum(counts, order_b);
    lemma_sum_order_free(order_a, order_b, |k: Seq<char>| if held(counts, k) != 0 { 1int } else { 0int });
}

/// The next tier, and so proximity, does not depend on the order in which
/// the breakpoints are listed.
pub proof fn lemma_breakpoint_order_free(
    counts: Map<Seq<char>, i32>,
    b1: Seq<(i32, i32)>,
    b2: Seq<(i32, i32)>,
    prefer: Seq<Seq<char>>,
)
    requires
        b1.to_multiset() == b2.to_multiset(),
    ensures
        proximity(counts, b1, prefer) == proximity(counts, b2, prefer),
{
    assert forall|cur: i32| #[trigger] next_tier(b1, cur) == next_tier(b2, cur) by {
        lemma_next_tier_order_free(b1, b2, cur);
    }
    lemma_proximity_sum_is_sum(counts, b1, prefer);
    lemma_proximity_sum_is_sum(counts, b2, prefer);
    assert((|k: Seq<char>| tier_term(b1, count_of(counts, k))) =~= (|k: Seq<char>| tier_term(
        b2,
        count_of(counts, k),
    )));
}

proof fn lemma_next_tier_order_free(b1: Seq<(i32, i32)>, b2: Seq<(i32, i32)>, cur: i32)
    requires
        b1.to_multiset() == b2.to_multiset(),
    ensures
        next_tier(b1, cur) == next_tier(b2, cur),
{
    broadcast use vstd::seq_lib::group_to_multiset_ensures;

    lemma_next_tier_above(b1, cur);
    lemma_next_tier_above(b2, cur);
    if next_tier(b1, cur).is_some() {
        let j = choose|j: int| 0 <= j < b1.len() && b1[j].1 == next_tier(b1, cur).unwrap();
        assert(b1.contains(b1[j]));
        assert(b2.to_multiset().count(b1[j]) > 0);
        assert(b2.contains(b1[j]));
        let k = choose|k: int| 0 <= k < b2.len() && b2[k] == b1[j];
    }
    if next_tier(b2, cur).is_some() {
        let j = choose|j: int| 0 <= j < b2.len() && b2[j].1 == next_tier(b2, cur).unwrap();
        assert(b2.contains(b2[j]));
        assert(b1.to_multiset().count(b2[j]) > 0);
        assert(b1.contains(b2[j]));
        let k = choose|k: int| 0 <= k < b1.len() && b1[k] == b2[j];
    }
}

/// With no negative coefficient the multiplier is at least 1: heuristics
/// only add.
pub proof fn lemma_multiplier_at_least_one(w: Weights, d: Detail)
    requires
        w.w_trait >= 0 && w.w_items >= 0 && w.w_stage >= 0 && w.w_hp >= 0 && w.w_conflict >= 0
            && w.w_synergy >= 0,
        d.f_trait >= 0 && d.f_items >= 0 && d.f_stage >= 0 && d.f_hp >= 0 && d.f_syn >= 0
            && d.f_conf >= 0,
    ensures
        multiplier(w, d) >= SCALE * SCALE,
{
    assert(w.w_trait * d.f_trait >= 0 && w.w_items * d.f_items >= 0 && w.w_stage * d.f_stage >= 0
        && w.w_hp * d.f_hp >= 0 && w.w_synergy * d.f_syn >= 0 && w.w_conflict * d.f_conf >= 0)
        by (nonlinear_arith)
        requires
            w.w_trait >= 0 && w.w_items >= 0 && w.w_stage >= 0 && w.w_hp >= 0 && w.w_conflict >= 0
                && w.w_synergy >= 0,
            d.f_trait >= 0 && d.f_items >= 0 && d.f_stage >= 0 && d.f_hp >= 0 && d.f_syn >= 0
                && d.f_conf >= 0,
    ;
}

} // verus!
