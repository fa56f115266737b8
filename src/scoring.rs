use vstd::prelude::*;
use crate::heuristics::{
    AttributeGroup, SCALE, in_unit, preferred, proximity, slam_value, lower_of, urgency_value,
    danger_value, synergy_value, conflict_value, tags_to_prefer_traits, proximity_to_next_tier,
    item_slam_bonus, stage_urgency, hp_danger, synergy_tag_bonus, conflict_signal,
};
use crate::table::CountTable;
use crate::text::views;

verus! {

/// Base score of an option that the catalog does not know: 60.
pub const DEFAULT_BASE: i64 = 60_000_000;

/// One known option: its base score (fixed point) and its tags.
pub struct CatalogEntry {
    pub name: String,
    pub score: i64,
    pub tags: Vec<String>,
}

/// The six coefficients, in fixed point (`w / SCALE`).
#[derive(Clone, Copy)]
pub struct Weights {
    pub w_trait: i32,
    pub w_items: i32,
    pub w_stage: i32,
    pub w_hp: i32,
    pub w_conflict: i32,
    pub w_synergy: i32,
}

/// The coefficients and the tier breakpoints (level, attribute count).
pub struct Config {
    pub weights: Weights,
    pub trait_breakpoints: Vec<(i32, i32)>,
}

/// The base score and the six heuristic values of one candidate.
#[derive(Clone, Copy)]
pub struct Detail {
    pub base: i64,
    pub f_trait: i64,
    pub f_items: i64,
    pub f_stage: i64,
    pub f_hp: i64,
    pub f_syn: i64,
    pub f_conf: i64,
}

/// The catalog entry of `name` (the last one with that name).
pub open spec fn entry_for(cat: Seq<CatalogEntry>, name: Seq<char>) -> Option<CatalogEntry>
    decreases cat.len(),
{
    if cat.len() == 0 {
        None
    } else if cat.last().name@ == name {
        Some(cat.last())
    } else {
        entry_for(cat.drop_last(), name)
    }
}

pub open spec fn base_of(cat: Seq<CatalogEntry>, name: Seq<char>) -> int {
    match entry_for(cat, name) {
        Some(e) => e.score as int,
        None => DEFAULT_BASE as int,
    }
}

pub open spec fn tags_of(cat: Seq<CatalogEntry>, name: Seq<char>) -> Seq<Seq<char>> {
    match entry_for(cat, name) {
        Some(e) => views(e.tags@),
        None => seq![],
    }
}

/// Everything a candidate is scored against: the reference data and the
/// current state.
pub open spec fn detail_spec(
    augment: Seq<char>,
    cat: Seq<CatalogEntry>,
    groups: Seq<AttributeGroup>,
    components: Seq<(String, i32)>,
    breaks: Seq<(i32, i32)>,
    stage: Seq<char>,
    hp: i32,
    traits: Map<Seq<char>, i32>,
    parts: Map<Seq<char>, i32>,
    taken: Seq<Seq<char>>,
) -> Detail {
    let prefer = preferred(tags_of(cat, augment), groups);
    Detail {
        base: base_of(cat, augment) as i64,
        f_trait: proximity(traits, breaks, prefer) as i64,
        f_items: slam_value(parts, lower_of(augment), components) as i64,
        f_stage: urgency_value(stage) as i64,
        f_hp: danger_value(hp) as i64,
        f_syn: synergy_value(traits, prefer) as i64,
        f_conf: conflict_value(augment, taken) as i64,
    }
}

pub open spec fn heuristics_in_range(d: Detail) -> bool {
    in_unit(d.f_trait as int) && in_unit(d.f_items as int) && in_unit(d.f_stage as int) && in_unit(
        d.f_hp as int,
    ) && in_unit(d.f_syn as int) && (d.f_conf == 0 || d.f_conf == SCALE)
}

/// The multiplier `1 + sum of coefficient * heuristic`, in units of
/// `1 / (SCALE * SCALE)`.
pub open spec fn multiplier(w: Weights, d: Detail) -> int {
    SCALE * SCALE + w.w_trait * d.f_trait + w.w_items * d.f_items + w.w_stage * d.f_stage + w.w_hp
        * d.f_hp + w.w_synergy * d.f_syn + w.w_conflict * d.f_conf
}

/// The final score `base * multiplier`, in units of `1 / SCALE^3`.
pub open spec fn final_score(w: Weights, d: Detail) -> int {
    d.base * multiplier(w, d)
}

fn find_entry(cat: &Vec<CatalogEntry>, name: &String) -> (r: Option<usize>)
    ensures
        match r {
            Some(j) => j < cat@.len() && entry_for(cat@, name@) == Some(cat@[j as int]),
            None => entry_for(cat@, name@).is_none(),
        },
{
    let mut found: Option<usize> = None;
    let mut i: usize = 0;
    while i < cat.len()
        invariant
            i <= cat@.len(),
            match found {
                Some(j) => j < i && entry_for(cat@.take(i as int), name@) == Some(cat@[j as int]),
                None => entry_for(cat@.take(i as int), name@).is_none(),
            },
        decreases cat@.len() - i,
    {
        assert(cat@.take(i + 1).drop_last() =~= cat@.take(i as int));
        if cat[i].name == *name {
            found = Some(i);
        }
        i = i + 1;
    }
    assert(cat@.take(i as int) =~= cat@);
    found
}

fn term(w: i32, h: i64) -> (r: i64)
    requires
        0 <= h <= SCALE,
    ensures
        r == w * h,
        -0x80_0000_0000_0000 <= r <= 0x80_0000_0000_0000,
{
    assert(-0x80_0000_0000_0000 <= w * h <= 0x80_0000_0000_0000) by (nonlinear_arith)
        requires
            -0x8000_0000 <= w <= 0x7fff_ffff,
            0 <= h <= 1_000_000,
    ;
    w as i64 * h
}

/// Scores one candidate: its base score, every heuristic, the multiplier
/// and the final score `base * multiplier`.
pub fn score_one(
    augment: &String,
    aug_db: &Vec<CatalogEntry>,
    trait_groups: &Vec<AttributeGroup>,
    components: &CountTable,
    cfg: &Config,
    stage: &str,
    hp: i32,
    state_traits: &CountTable,
    parts: &CountTable,
    taken: &Vec<String>,
) -> (r: (i128, i64, Detail))
    requires
        state_traits.wf(),
        parts.wf(),
    ensures
        r.2 == detail_spec(
            augment@,
            aug_db@,
            trait_groups@,
            components.entries@,
            cfg.trait_breakpoints@,
            stage@,
            hp,
            state_traits@,
            parts@,
            views(taken@),
        ),
        heuristics_in_range(r.2),
        r.1 == multiplier(cfg.weights, r.2),
        r.0 == final_score(cfg.weights, r.2),
{
    let entry = find_entry(aug_db, augment);
    let (base, prefer) = match entry {
        Some(j) => (aug_db[j].score, tags_to_prefer_traits(&aug_db[j].tags, trait_groups)),
        None => (DEFAULT_BASE, tags_to_prefer_traits(&Vec::new(), trait_groups)),
    };
    proof {
        if entry.is_none() {
            assert(views(Seq::<String>::empty()) =~= seq![]);
        }
    }
    let det = Detail {
        base,
        f_trait: proximity_to_next_tier(state_traits, &cfg.trait_breakpoints, &prefer),
        f_items: item_slam_bonus(parts, augment.as_str(), components),
        f_stage: stage_urgency(stage),
        f_hp: hp_danger(hp),
        f_syn: synergy_tag_bonus(&prefer, state_traits),
        f_conf: conflict_signal(augment, taken),
    };
    let w = cfg.weights;
    let mult: i64 = SCALE * SCALE + term(w.w_trait, det.f_trait) + term(w.w_items, det.f_items)
        + term(w.w_stage, det.f_stage) + term(w.w_hp, det.f_hp) + term(w.w_synergy, det.f_syn)
        + term(w.w_conflict, det.f_conf);
    assert(-0x400_0000_0000_0000_0000_0000_0000_0000 <= (base as int) * (mult as int)
        <= 0x400_0000_0000_0000_0000_0000_0000_0000) by (nonlinear_arith)
        requires
            -0x8000_0000_0000_0000 <= base <= 0x7fff_ffff_ffff_ffff,
            -0x400_0000_0000_0000 <= mult <= 0x400_0000_0000_0000,
    ;
    let score: i128 = base as i128 * mult as i128;
    (score, mult, det)
}

/// `a` comes before `b` in the ranking: a higher score, or an equal score
/// and an earlier input position.
pub open spec fn ranked_before(scores: Seq<i128>, a: int, b: int) -> bool {
    scores[a] > scores[b] || (scores[a] == scores[b] && a < b)
}

/// `r` lists input positions in ranking order.
pub open spec fn ranked(scores: Seq<i128>, r: Seq<usize>) -> bool {
    forall|j: int, k: int|
        0 <= j < k < r.len() ==> ranked_before(scores, #[trigger] r[j] as int, #[trigger] r[k] as int)
}

/// Orders candidates by final score, highest first; equal scores keep their
/// input order. Returns the input positions in that order, each once.
pub fn rank_order(scores: &Vec<i128>) -> (r: Vec<usize>)
    ensures
        r@.len() == scores@.len(),
        r@.no_duplicates(),
        forall|j: int| 0 <= j < r@.len() ==> r@[j] < scores@.len(),
        ranked(scores@, r@),
{
    let mut out: Vec<usize> = Vec::new();
    let mut i: usize = 0;
    while i < scores.len()
        invariant
            i <= scores@.len(),
            out@.len() == i,
            out@.no_duplicates(),
            forall|j: int| 0 <= j < out@.len() ==> out@[j] < i,
            ranked(scores@, out@),
        decreases scores@.len() - i,
    {
        let s = scores[i];
        let mut p: usize = 0;
        while p < out.len() && scores[out[p]] >= s
            invariant
                p <= out@.len(),
                forall|j: int| 0 <= j < out@.len() ==> out@[j] < i,
                i < scores@.len(),
                s == scores@[i as int],
                forall|j: int| 0 <= j < p ==> scores@[#[trigger] out@[j] as int] >= s,
            decreases out@.len() - p,
        {
            p = p + 1;
        }
        let ghost old_out = out@;
        out.insert(p, i);
        proof {
            assert forall|j: int, k: int| 0 <= j < k < out@.len() implies ranked_before(
                scores@,
                #[trigger] out@[j] as int,
                #[trigger] out@[k] as int,
            ) by {
                if j < p && k == p {
                    assert(out@[j] == old_out[j]);
                } else if j == p && k > p {
                    assert(out@[k] == old_out[k - 1]);
                    assert(ranked_before(scores@, old_out[p as int] as int, old_out[k - 1] as int)
                        || k - 1 == p);
                } else if k < p {
                    assert(out@[j] == old_out[j] && out@[k] == old_out[k]);
                } else if j < p && k > p {
                    assert(out@[j] == old_out[j] && out@[k] == old_out[k - 1]);
                } else {
                    assert(out@[j] == old_out[j - 1] && out@[k] == old_out[k - 1]);
                }
            }
            assert forall|a: int, b: int|
                0 <= a < out@.len() && 0 <= b < out@.len() && a != b implies out@[a]
                != out@[b] by {
                if a != p && b != p {
                    let oa = if a < p { a } else { a - 1 };
                    let ob = if b < p { b } else { b - 1 };
                    assert(out@[a] == old_out[oa] && out@[b] == old_out[ob]);
                } else if a == p {
                    let ob = if b < p { b } else { b - 1 };
                    assert(out@[b] == old_out[ob]);
                } else {
                    let oa = if a < p { a } else { a - 1 };
                    assert(out@[a] == old_out[oa]);
                }
            }
            assert forall|j: int| 0 <= j < out@.len() implies out@[j] < i + 1 by {
                if j < p {
                    assert(out@[j] == old_out[j]);
                } else if j > p {
                    assert(out@[j] == old_out[j - 1]);
                }
            }
        }
        i = i + 1;
    }
    out
}

/// The heuristics, named for the explanation of a score.
#[derive(Clone, Copy, PartialEq, Eq, Structural, Debug)]
pub enum Reason {
    TraitProximity,
    ItemSlam,
    StageUrgency,
    HpDanger,
    Synergy,
    Conflict,
}

pub open spec fn reason_if(reason: Reason, v: i64) -> Seq<(Reason, i64)> {
    if v != 0 {
        seq![(reason, v)]
    } else {
        seq![]
    }
}

/// The nonzero heuristic values of `d`, labelled, in the fixed order
/// proximity, item slam, stage, danger, synergy, conflict.
pub open spec fn reasons_of(d: Detail) -> Seq<(Reason, i64)> {
    reason_if(Reason::TraitProximity, d.f_trait) + reason_if(Reason::ItemSlam, d.f_items)
        + reason_if(Reason::StageUrgency, d.f_stage) + reason_if(Reason::HpDanger, d.f_hp)
        + reason_if(Reason::Synergy, d.f_syn) + reason_if(Reason::Conflict, d.f_conf)
}

fn push_reason(out: &mut Vec<(Reason, i64)>, reason: Reason, v: i64)
    ensures
        final(out)@ == old(out)@ + reason_if(reason, v),
{
    if v != 0 {
        out.push((reason, v));
        assert(final(out)@ =~= old(out)@ + reason_if(reason, v));
    } else {
        assert(out@ =~= old(out)@ + reason_if(reason, v));
    }
}

/// The reasons shown for a score: each nonzero heuristic with its value.
pub fn explain(d: &Detail) -> (r: Vec<(Reason, i64)>)
    ensures
        r@ == reasons_of(*d),
{
    let mut out: Vec<(Reason, i64)> = Vec::new();
    push_reason(&mut out, Reason::TraitProximity, d.f_trait);
    push_reason(&mut out, Reason::ItemSlam, d.f_items);
    push_reason(&mut out, Reason::StageUrgency, d.f_stage);
    push_reason(&mut out, Reason::HpDanger, d.f_hp);
    push_reason(&mut out, Reason::Synergy, d.f_syn);
    push_reason(&mut out, Reason::Conflict, d.f_conf);
    assert(out@ =~= reasons_of(*d));
    out
}

} // verus!
