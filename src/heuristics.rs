use vstd::prelude::*;
use crate::table::CountTable;
use crate::text::{leading_number, stage_round, views};

verus! {

/// Fixed-point scale: a heuristic value `h` stands for `h / SCALE`, so
/// `SCALE` is the value 1.
pub const SCALE: i64 = 1_000_000;

/// What each preferred attribute with a nonzero count adds to the synergy
/// heuristic (a quarter).
pub const SYNERGY_STEP: i64 = 250_000;

/// A named group of related attributes.
pub struct AttributeGroup {
    pub name: String,
    pub attributes: Vec<String>,
}

pub open spec fn has_text(s: Seq<Seq<char>>, t: Seq<char>) -> bool {
    exists|i: int| 0 <= i < s.len() && s[i] == t
}

/// The attributes of every group that one of `tags` names, group by group.
pub open spec fn preferred(tags: Seq<Seq<char>>, groups: Seq<AttributeGroup>) -> Seq<Seq<char>>
    decreases groups.len(),
{
    if groups.len() == 0 {
        seq![]
    } else {
        let g = groups.last();
        let rest = preferred(tags, groups.drop_last());
        if has_text(tags, g.name@) {
            rest + views(g.attributes@)
        } else {
            rest
        }
    }
}

/// `raw / den` as a value in `[0, 1]`: clamped below at 0 and above at 1,
/// rounded down.
pub open spec fn unit_ratio(raw: int, den: int) -> int {
    if raw <= 0 {
        0
    } else if raw >= den {
        SCALE as int
    } else {
        raw * (SCALE as int) / den
    }
}

pub open spec fn in_unit(h: int) -> bool {
    0 <= h <= SCALE as int
}

/// The count recorded for `k`, if any.
pub open spec fn count_of(m: Map<Seq<char>, i32>, k: Seq<char>) -> Option<i32> {
    if m.contains_key(k) {
        Some(m[k])
    } else {
        None
    }
}

/// A held count: zero when none is recorded.
pub open spec fn held(m: Map<Seq<char>, i32>, k: Seq<char>) -> int {
    if m.contains_key(k) {
        m[k] as int
    } else {
        0
    }
}

/// The smallest breakpoint strictly above `cur`.
pub open spec fn next_tier(bps: Seq<(i32, i32)>, cur: i32) -> Option<i32>
    decreases bps.len(),
{
    if bps.len() == 0 {
        None
    } else {
        let b = bps.last().1;
        let r = next_tier(bps.drop_last(), cur);
        if b > cur && (r.is_none() || b < r.unwrap()) {
            Some(b)
        } else {
            r
        }
    }
}

/// Closeness of one attribute to its next tier: `1 / distance`, 0 when the
/// attribute has no count or no tier lies above it.
pub open spec fn tier_term(bps: Seq<(i32, i32)>, c: Option<i32>) -> int {
    match c {
        Some(cur) => match next_tier(bps, cur) {
            Some(n) => (SCALE as int) / (n - cur),
            None => 0,
        },
        None => 0,
    }
}

pub open spec fn proximity_sum(
    counts: Map<Seq<char>, i32>,
    bps: Seq<(i32, i32)>,
    prefer: Seq<Seq<char>>,
) -> int
    decreases prefer.len(),
{
    if prefer.len() == 0 {
        0
    } else {
        proximity_sum(counts, bps, prefer.drop_last()) + tier_term(bps, count_of(counts, prefer.last()))
    }
}

pub open spec fn min_scale(x: int) -> int {
    if x < SCALE as int {
        x
    } else {
        SCALE as int
    }
}

/// The attribute-proximity heuristic.
pub open spec fn proximity(
    counts: Map<Seq<char>, i32>,
    bps: Seq<(i32, i32)>,
    prefer: Seq<Seq<char>>,
) -> int {
    min_scale(proximity_sum(counts, bps, prefer))
}

pub proof fn lemma_tier_term_bounds(bps: Seq<(i32, i32)>, c: Option<i32>)
    ensures
        in_unit(tier_term(bps, c)),
{
    if let Some(cur) = c {
        if let Some(n) = next_tier(bps, cur) {
            lemma_next_tier_above(bps, cur);
            let d = n - cur;
            let sc = SCALE as int;
            assert(0 <= sc / d <= sc) by (nonlinear_arith)
                requires
                    d >= 1,
                    sc >= 0,
            ;
        }
    }
}

pub proof fn lemma_next_tier_above(bps: Seq<(i32, i32)>, cur: i32)
    ensures
        next_tier(bps, cur).is_some() ==> next_tier(bps, cur).unwrap() > cur,
        next_tier(bps, cur).is_some() ==> exists|j: int|
            0 <= j < bps.len() && bps[j].1 == next_tier(bps, cur).unwrap(),
        forall|j: int| 0 <= j < bps.len() && bps[j].1 > cur ==> next_tier(bps, cur).is_some()
            && next_tier(bps, cur).unwrap() <= bps[j].1,
    decreases bps.len(),
{
    if bps.len() > 0 {
        let d = bps.drop_last();
        lemma_next_tier_above(d, cur);
        assert forall|j: int| 0 <= j < d.len() implies #[trigger] bps[j] == d[j] by {}
        if next_tier(bps, cur).is_some() && next_tier(bps, cur) != next_tier(d, cur) {
            assert(bps[bps.len() - 1].1 == next_tier(bps, cur).unwrap());
        }
    }
}

proof fn lemma_proximity_sum_nonneg(
    counts: Map<Seq<char>, i32>,
    bps: Seq<(i32, i32)>,
    prefer: Seq<Seq<char>>,
)
    ensures
        proximity_sum(counts, bps, prefer) >= 0,
    decreases prefer.len(),
{
    if prefer.len() > 0 {
        lemma_proximity_sum_nonneg(counts, bps, prefer.drop_last());
        lemma_tier_term_bounds(bps, count_of(counts, prefer.last()));
    }
}

/// The breakpoint of the next tier above `cur`, if any.
fn find_next_tier(breaks: &Vec<(i32, i32)>, cur: i32) -> (r: Option<i32>)
    ensures
        r == next_tier(breaks@, cur),
{
    let mut best: Option<i32> = None;
    let mut i: usize = 0;
    while i < breaks.len()
        invariant
            i <= breaks@.len(),
            best == next_tier(breaks@.take(i as int), cur),
        decreases breaks@.len() - i,
    {
        assert(breaks@.take(i + 1).drop_last() =~= breaks@.take(i as int));
        let b = breaks[i].1;
        if b > cur {
            match best {
                Some(x) => {
                    if b < x {
                        best = Some(b);
                    }
                },
                None => {
                    best = Some(b);
                },
            }
        }
        i = i + 1;
    }
    assert(breaks@.take(i as int) =~= breaks@);
    best
}

/// Rewards preferred attributes that are close to their next tier: each one
/// with a count adds `1 / (next breakpoint - count)`, the sum capped at 1.
pub fn proximity_to_next_tier(
    traits: &CountTable,
    breaks: &Vec<(i32, i32)>,
    prefer: &Vec<String>,
) -> (r: i64)
    requires
        traits.wf(),
    ensures
        r == proximity(traits@, breaks@, views(prefer@)),
        in_unit(r as int),
{
    let ghost ps = views(prefer@);
    let mut acc: i64 = 0;
    let mut i: usize = 0;
    while i < prefer.len()
        invariant
            i <= prefer@.len(),
            ps == views(prefer@),
            traits.wf(),
            acc == min_scale(proximity_sum(traits@, breaks@, ps.take(i as int))),
        decreases prefer@.len() - i,
    {
        let ghost pre = ps.take(i as int);
        assert(ps.take(i + 1).drop_last() =~= pre);
        assert(ps.take(i + 1).last() == prefer@[i as int]@);
        proof {
            lemma_proximity_sum_nonneg(traits@, breaks@, pre);
        }
        let mut term: i64 = 0;
        if let Some(cur) = traits.get(&prefer[i]) {
            if let Some(n) = find_next_tier(breaks, cur) {
                proof {
                    lemma_next_tier_above(breaks@, cur);
                }
                let d: i64 = n as i64 - cur as i64;
                term = SCALE / d;
            }
        }
        proof {
            lemma_tier_term_bounds(breaks@, count_of(traits@, prefer@[i as int]@));
        }
        assert(term == tier_term(breaks@, count_of(traits@, prefer@[i as int]@)));
        acc = if acc + term < SCALE {
            acc + term
        } else {
            SCALE
        };
        i = i + 1;
    }
    assert(ps.take(i as int) =~= ps);
    proof {
        lemma_proximity_sum_nonneg(traits@, breaks@, ps);
    }
    acc
}

fn contains_text(list: &Vec<String>, t: &String) -> (r: bool)
    ensures
        r == has_text(views(list@), t@),
{
    let mut i: usize = 0;
    while i < list.len()
        invariant
            i <= list@.len(),
            forall|j: int| 0 <= j < i ==> (#[trigger] list@[j])@ != t@,
        decreases list@.len() - i,
    {
        if list[i] == *t {
            assert(views(list@)[i as int] == t@);
            return true;
        }
        i = i + 1;
    }
    assert forall|j: int| 0 <= j < views(list@).len() implies views(list@)[j] != t@ by {
        assert(views(list@)[j] == list@[j]@);
    }
    false
}

/// The preferred attributes of an option with `tags`: every attribute of
/// every group that a tag names.
pub fn tags_to_prefer_traits(tags: &Vec<String>, groups: &Vec<AttributeGroup>) -> (r: Vec<String>)
    ensures
        views(r@) == preferred(views(tags@), groups@),
{
    let mut out: Vec<String> = Vec::new();
    let mut g: usize = 0;
    while g < groups.len()
        invariant
            g <= groups@.len(),
            views(out@) == preferred(views(tags@), groups@.take(g as int)),
        decreases groups@.len() - g,
    {
        assert(groups@.take(g + 1).drop_last() =~= groups@.take(g as int));
        let group = &groups[g];
        if contains_text(tags, &group.name) {
            let ghost base = views(out@);
            let mut a: usize = 0;
            while a < group.attributes.len()
                invariant
                    a <= group.attributes@.len(),
                    views(out@) == base + views(group.attributes@).take(a as int),
                decreases group.attributes@.len() - a,
            {
                let ghost before = views(out@);
                out.push(group.attributes[a].clone());
                assert(views(out@) =~= before.push(group.attributes@[a as int]@));
                assert(views(group.attributes@).take(a + 1) =~= views(group.attributes@).take(
                    a as int,
                ).push(group.attributes@[a as int]@));
                a = a + 1;
            }
            assert(views(group.attributes@).take(a as int) =~= views(group.attributes@));
        }
        g = g + 1;
    }
    assert(groups@.take(g as int) =~= groups@);
    out
}

/// `raw / den` clamped to `[0, 1]`, in fixed point.
fn unit_ratio_of(raw: i128, den: i64) -> (r: i64)
    requires
        1 <= den <= 60,
    ensures
        r == unit_ratio(raw as int, den as int),
        in_unit(r as int),
{
    if raw <= 0 {
        0
    } else if raw >= den as i128 {
        SCALE
    } else {
        let x: i64 = raw as i64;
        assert(0 <= x * SCALE <= 60 * SCALE) by (nonlinear_arith)
            requires
                0 < x < 60,
                SCALE == 1_000_000,
        ;
        assert(0 <= (x * SCALE) / (den as int) <= SCALE) by (nonlinear_arith)
            requires
                0 < x < den,
                SCALE == 1_000_000,
        ;
        x * SCALE / den
    }
}

/// Danger: `(60 - hp) / 60`, clamped to `[0, 1]`.
pub open spec fn danger_value(hp: i32) -> int {
    unit_ratio(60 - hp, 60)
}

/// The danger heuristic: lower health gives a larger value.
pub fn hp_danger(hp: i32) -> (r: i64)
    ensures
        r == danger_value(hp),
        in_unit(r as int),
{
    unit_ratio_of(60 - hp as i128, 60)
}

/// Stage urgency: `(round - 2) / 4`, clamped to `[0, 1]`.
pub open spec fn urgency_value(stage: Seq<char>) -> int {
    unit_ratio(stage_round(stage) - 2, 4)
}

/// The stage-urgency heuristic: later rounds give a larger value.
pub fn stage_urgency(stage: &str) -> (r: i64)
    ensures
        r == urgency_value(stage@),
        in_unit(r as int),
{
    let round = leading_number(stage);
    unit_ratio_of(round as i128 - 2, 4)
}

/// The conflict signal: 1 exactly when `taken` holds `option` itself.
pub open spec fn conflict_value(option: Seq<char>, taken: Seq<Seq<char>>) -> int {
    if has_text(taken, option) {
        SCALE as int
    } else {
        0
    }
}

/// The conflict heuristic: 1 when the option was already chosen, else 0.
pub fn conflict_signal(option: &String, taken: &Vec<String>) -> (r: i64)
    ensures
        r == conflict_value(option@, views(taken@)),
        r == 0 || r == SCALE,
{
    if contains_text(taken, option) {
        SCALE
    } else {
        0
    }
}

/// How many of `prefer` have a nonzero count.
pub open spec fn active_count(counts: Map<Seq<char>, i32>, prefer: Seq<Seq<char>>) -> int
    decreases prefer.len(),
{
    if prefer.len() == 0 {
        0
    } else {
        active_count(counts, prefer.drop_last()) + if held(counts, prefer.last()) != 0 {
            1int
        } else {
            0int
        }
    }
}

/// The synergy heuristic: a step for each preferred attribute with a nonzero
/// count, capped at 1.
pub open spec fn synergy_value(counts: Map<Seq<char>, i32>, prefer: Seq<Seq<char>>) -> int {
    min_scale(SYNERGY_STEP * active_count(counts, prefer))
}

proof fn lemma_active_count_nonneg(counts: Map<Seq<char>, i32>, prefer: Seq<Seq<char>>)
    ensures
        active_count(counts, prefer) >= 0,
    decreases prefer.len(),
{
    if prefer.len() > 0 {
        lemma_active_count_nonneg(counts, prefer.drop_last());
    }
}

/// Rewards breadth: each preferred attribute already held adds a fixed step.
pub fn synergy_tag_bonus(prefer: &Vec<String>, state_traits: &CountTable) -> (r: i64)
    requires
        state_traits.wf(),
    ensures
        r == synergy_value(state_traits@, views(prefer@)),
        in_unit(r as int),
{
    let ghost ps = views(prefer@);
    let mut acc: i64 = 0;
    let mut i: usize = 0;
    while i < prefer.len()
        invariant
            i <= prefer@.len(),
            ps == views(prefer@),
            state_traits.wf(),
            acc == min_scale(SYNERGY_STEP * active_count(state_traits@, ps.take(i as int))),
        decreases prefer@.len() - i,
    {
        let ghost pre = ps.take(i as int);
        assert(ps.take(i + 1).drop_last() =~= pre);
        assert(ps.take(i + 1).last() == prefer@[i as int]@);
        proof {
            lemma_active_count_nonneg(state_traits@, pre);
        }
        let active = match state_traits.get(&prefer[i]) {
            Some(c) => c != 0,
            None => false,
        };
        if active {
            acc = if acc + SYNERGY_STEP < SCALE {
                acc + SYNERGY_STEP
            } else {
                SCALE
            };
        }
        i = i + 1;
    }
    assert(ps.take(i as int) =~= ps);
    proof {
        lemma_active_count_nonneg(state_traits@, ps);
    }
    acc
}

/// `s` in lower case, as `str::to_lowercase` gives it.
pub uninterp spec fn lower_of(s: Seq<char>) -> Seq<char>;

/// Relies on str::to_lowercase: the lower-case form depends on the text alone.
#[verifier::external_body]
fn lowercase(s: &str) -> (r: String)
    ensures
        r@ == lower_of(s@),
{
    s.to_lowercase()
}

/// The two kinds of option whose value grows with the held components.
pub enum SlamFamily {
    /// Valued by every held component against its weight.
    Components,
    /// Valued by the held belts and chains.
    BeltChain,
    /// Not valued by components.
    Other,
}

/// The names (in lower case) of the component family; the possessive is
/// written with a typographic apostrophe, a plain one, or none.
pub open spec fn is_component_name(n: Seq<char>) -> bool {
    n == "component grab bag"@ || n == "portable forge"@ || n == "pandora\u{2019}s items"@ || n
        == "pandoras items"@ || n == "pandora's items"@
}

/// The names (in lower case) of the belt and chain family.
pub open spec fn is_belt_chain_name(n: Seq<char>) -> bool {
    n == "sunfire board"@ || n == "exiles"@ || n == "triumphant return"@
}

pub open spec fn family_of(n: Seq<char>) -> SlamFamily {
    if is_component_name(n) {
        SlamFamily::Components
    } else if is_belt_chain_name(n) {
        SlamFamily::BeltChain
    } else {
        SlamFamily::Other
    }
}

fn text_is(s: &String, lit: &str) -> (r: bool)
    ensures
        r == (s@ == lit@),
{
    let t = lit.to_owned();
    *s == t
}

/// The family of an option, from its lower-case name.
pub fn slam_family(lowered: &String) -> (r: SlamFamily)
    ensures
        r == family_of(lowered@),
{
    if text_is(lowered, "component grab bag") || text_is(lowered, "portable forge") || text_is(
        lowered,
        "pandora\u{2019}s items",
    ) || text_is(lowered, "pandoras items") || text_is(lowered, "pandora's items") {
        SlamFamily::Components
    } else if text_is(lowered, "sunfire board") || text_is(lowered, "exiles") || text_is(
        lowered,
        "triumphant return",
    ) {
        SlamFamily::BeltChain
    } else {
        SlamFamily::Other
    }
}

/// Held count times weight, summed over the weight table.
pub open spec fn weighted_parts(parts: Map<Seq<char>, i32>, weights: Seq<(String, i32)>) -> int
    decreases weights.len(),
{
    if weights.len() == 0 {
        0
    } else {
        weighted_parts(parts, weights.drop_last()) + held(parts, weights.last().0@)
            * weights.last().1
    }
}

pub open spec fn belt_chain_raw(parts: Map<Seq<char>, i32>) -> int {
    held(parts, "Belt"@) * 10 + held(parts, "Chain"@) * 9
}

/// The item-slam heuristic for an option whose lower-case name is `lowered`.
pub open spec fn slam_value(
    parts: Map<Seq<char>, i32>,
    lowered: Seq<char>,
    weights: Seq<(String, i32)>,
) -> int {
    match family_of(lowered) {
        SlamFamily::Components => unit_ratio(weighted_parts(parts, weights), 20),
        SlamFamily::BeltChain => unit_ratio(belt_chain_raw(parts), 15),
        SlamFamily::Other => 0,
    }
}

fn held_count(parts: &CountTable, k: &String) -> (r: i32)
    requires
        parts.wf(),
    ensures
        r == held(parts@, k@),
{
    match parts.get(k) {
        Some(c) => c,
        None => 0,
    }
}

/// Sum of held count times weight over the weight table.
fn weighted_sum(parts: &CountTable, slam: &CountTable) -> (r: i128)
    requires
        parts.wf(),
    ensures
        r == weighted_parts(parts@, slam.entries@),
{
    let ghost ws = slam.entries@;
    let mut acc: i128 = 0;
    let mut i: usize = 0;
    while i < slam.entries.len()
        invariant
            i <= ws.len(),
            ws == slam.entries@,
            parts.wf(),
            acc == weighted_parts(parts@, ws.take(i as int)),
            -(i as int) * 0x4000_0000_0000_0000 <= acc <= (i as int) * 0x4000_0000_0000_0000,
        decreases ws.len() - i,
    {
        assert(ws.take(i + 1).drop_last() =~= ws.take(i as int));
        let h = held_count(parts, &slam.entries[i].0);
        let w = slam.entries[i].1;
        assert(-0x4000_0000_0000_0000 <= (h as int) * (w as int) <= 0x4000_0000_0000_0000)
            by (nonlinear_arith)
            requires
                -0x8000_0000 <= h <= 0x7fff_ffff,
                -0x8000_0000 <= w <= 0x7fff_ffff,
        ;
        let t: i64 = h as i64 * w as i64;
        assert(i < 0x1_0000_0000_0000_0000);
        assert((i as int + 1) * 0x4000_0000_0000_0000 <= 0x4_0000_0000_0000_0000_0000_0000_0000_0000)
            by (nonlinear_arith)
            requires
                i < 0x1_0000_0000_0000_0000,
        ;
        acc = acc + t as i128;
        i = i + 1;
    }
    assert(ws.take(i as int) =~= ws);
    acc
}

/// The item-slam heuristic, from the option's lower-case name.
pub fn slam_bonus(parts: &CountTable, lowered: &String, slam: &CountTable) -> (r: i64)
    requires
        parts.wf(),
    ensures
        r == slam_value(parts@, lowered@, slam.entries@),
        in_unit(r as int),
{
    match slam_family(lowered) {
        SlamFamily::Components => {
            let raw = weighted_sum(parts, slam);
            unit_ratio_of(raw, 20)
        },
        SlamFamily::BeltChain => {
            let belt = held_count(parts, &"Belt".to_owned());
            let chain = held_count(parts, &"Chain".to_owned());
            let raw: i128 = belt as i128 * 10 + chain as i128 * 9;
            unit_ratio_of(raw, 15)
        },
        SlamFamily::Other => 0,
    }
}

/// The item-slam heuristic: options that consume held components are worth
/// more the more (and the better) components are held.
pub fn item_slam_bonus(parts: &CountTable, augment: &str, slam: &CountTable) -> (r: i64)
    requires
        parts.wf(),
    ensures
        r == slam_value(parts@, lower_of(augment@), slam.entries@),
        in_unit(r as int),
{
    let lowered = lowercase(augment);
    slam_bonus(parts, &lowered, slam)
}

} // verus!
