use vstd::prelude::*;
use crate::table::CountTable;

verus! {

/// Index of the first `sep` in `s`, or `s.len()` when there is none.
pub open spec fn first_sep(s: Seq<char>, sep: char) -> nat
    decreases s.len(),
{
    if s.len() == 0 {
        0
    } else if s[0] == sep {
        0
    } else {
        1 + first_sep(s.drop_first(), sep)
    }
}

/// The pieces of `s` between occurrences of `sep`, in order (always at least one).
pub open spec fn pieces(s: Seq<char>, sep: char) -> Seq<Seq<char>>
    decreases s.len(),
{
    let i = first_sep(s, sep) as int;
    if i < s.len() {
        seq![s.take(i as int)] + pieces(s.skip(i + 1), sep)
    } else {
        seq![s]
    }
}

/// The text before and after the first `sep`, if `s` holds one.
pub open spec fn split_once_spec(s: Seq<char>, sep: char) -> Option<(Seq<char>, Seq<char>)> {
    let i = first_sep(s, sep) as int;
    if i < s.len() {
        Some((s.take(i as int), s.skip(i + 1)))
    } else {
        None
    }
}

pub open spec fn is_digit(c: char) -> bool {
    '0' <= c && c <= '9'
}

/// Value of a sequence of decimal digits.
pub open spec fn digits_value(d: Seq<char>) -> int
    decreases d.len(),
{
    if d.len() == 0 {
        0
    } else {
        10 * digits_value(d.drop_last()) + (d.last() as int - '0' as int)
    }
}

pub open spec fn all_digits(d: Seq<char>) -> bool {
    d.len() > 0 && forall|i: int| 0 <= i < d.len() ==> is_digit(#[trigger] d[i])
}

/// The integer written in `s`: an optional `+` or `-`, then one or more
/// decimal digits.
pub open spec fn signed_value(s: Seq<char>) -> Option<int> {
    if s.len() > 0 && s[0] == '-' && all_digits(s.drop_first()) {
        Some(-digits_value(s.drop_first()))
    } else if s.len() > 0 && s[0] == '+' && all_digits(s.drop_first()) {
        Some(digits_value(s.drop_first()))
    } else if all_digits(s) {
        Some(digits_value(s))
    } else {
        None
    }
}

/// What `str::parse::<i32>` accepts: a signed decimal that fits in an `i32`.
pub open spec fn i32_value(s: Seq<char>) -> Option<i32> {
    match signed_value(s) {
        Some(v) => if i32::MIN <= v <= i32::MAX {
            Some(v as i32)
        } else {
            None
        },
        None => None,
    }
}

/// `s` with leading and trailing Unicode white space removed.
pub uninterp spec fn trimmed(s: Seq<char>) -> Seq<char>;

/// Relies on str::split with a `char` pattern: the pieces between separators.
#[verifier::external_body]
pub(crate) fn split_on(s: &str, sep: char) -> (r: Vec<String>)
    ensures
        r@.map_values(|p: String| p@) == pieces(s@, sep),
{
    s.split(sep).map(|p| p.to_string()).collect()
}

/// Relies on str::split_once with a `char` pattern: the text around the first match.
#[verifier::external_body]
pub(crate) fn split_once_on(s: &str, sep: char) -> (r: Option<(String, String)>)
    ensures
        match r {
            Some((a, b)) => split_once_spec(s@, sep) == Some((a@, b@)),
            None => split_once_spec(s@, sep).is_none(),
        },
{
    s.split_once(sep).map(|(a, b)| (a.to_string(), b.to_string()))
}

/// Relies on str::trim: white space removed at both ends.
#[verifier::external_body]
pub(crate) fn trim_text(s: &str) -> (r: String)
    ensures
        r@ == trimmed(s@),
{
    s.trim().to_string()
}

/// Relies on str::parse::<i32> (i32::from_str): optional sign, decimal digits, no overflow.
#[verifier::external_body]
pub(crate) fn parse_i32(s: &str) -> (r: Option<i32>)
    ensures
        r == i32_value(s@),
{
    s.parse::<i32>().ok()
}

/// The non-empty texts among `ps`, in order.
pub open spec fn nonempty(ps: Seq<Seq<char>>) -> Seq<Seq<char>>
    decreases ps.len(),
{
    if ps.len() == 0 {
        seq![]
    } else if ps.last().len() > 0 {
        nonempty(ps.drop_last()).push(ps.last())
    } else {
        nonempty(ps.drop_last())
    }
}

/// The fields of a comma-separated list: each piece trimmed, empty ones dropped.
pub open spec fn csv_fields(s: Seq<char>) -> Seq<Seq<char>> {
    nonempty(pieces(s, ',').map_values(|p: Seq<char>| trimmed(p)))
}

pub open spec fn views(v: Seq<String>) -> Seq<Seq<char>> {
    v.map_values(|p: String| p@)
}

/// Keeps the non-empty texts of `trimmed_pieces`, in order.
pub fn csv_field_list(trimmed_pieces: Vec<String>) -> (r: Vec<String>)
    ensures
        views(r@) == nonempty(views(trimmed_pieces@)),
{
    let mut out: Vec<String> = Vec::new();
    let ghost src = views(trimmed_pieces@);
    let mut i: usize = 0;
    while i < trimmed_pieces.len()
        invariant
            i <= trimmed_pieces.len(),
            src == views(trimmed_pieces@),
            views(out@) == nonempty(src.take(i as int)),
        decreases trimmed_pieces.len() - i,
    {
        let p = trimmed_pieces[i].clone();
        assert(src.take(i + 1).drop_last() =~= src.take(i as int));
        if !p.as_str().is_empty() {
            out.push(p);
            assert(views(out@) =~= views(out@.drop_last()).push(p@));
        }
        i = i + 1;
    }
    assert(src.take(i as int) =~= src);
    out
}

/// Splits a comma-separated list into its trimmed, non-empty fields.
pub fn split_csv(s: &str) -> (r: Vec<String>)
    ensures
        views(r@) == csv_fields(s@),
{
    let parts = split_on(s, ',');
    let ghost ps = pieces(s@, ',');
    let mut trimmed_parts: Vec<String> = Vec::new();
    let mut i: usize = 0;
    while i < parts.len()
        invariant
            i <= parts.len(),
            views(parts@) == ps,
            views(trimmed_parts@) == ps.take(i as int).map_values(|p: Seq<char>| trimmed(p)),
        decreases parts.len() - i,
    {
        let t = trim_text(parts[i].as_str());
        let ghost before = views(trimmed_parts@);
        trimmed_parts.push(t);
        assert(views(parts@)[i as int] == parts@[i as int]@);
        assert(views(trimmed_parts@) =~= before.push(trimmed(ps[i as int])));
        assert(ps.take(i + 1).map_values(|p: Seq<char>| trimmed(p)) =~= ps.take(i as int).map_values(
            |p: Seq<char>| trimmed(p),
        ).push(trimmed(ps[i as int])));
        i = i + 1;
    }
    assert(ps.take(i as int) =~= ps);
    csv_field_list(trimmed_parts)
}

/// The `name=count` pair written in one field, if it is one.
pub open spec fn pair_of(field: Seq<char>) -> Option<(Seq<char>, i32)> {
    match split_once_spec(field, '=') {
        Some((k, v)) => match i32_value(v) {
            Some(n) => Some((k, n)),
            None => None,
        },
        None => None,
    }
}

/// The counts written in a list of fields: later pairs override earlier ones,
/// malformed fields are skipped.
pub open spec fn pairs_map(fs: Seq<Seq<char>>) -> Map<Seq<char>, i32>
    decreases fs.len(),
{
    if fs.len() == 0 {
        Map::empty()
    } else {
        match pair_of(fs.last()) {
            Some((k, n)) => pairs_map(fs.drop_last()).insert(k, n),
            None => pairs_map(fs.drop_last()),
        }
    }
}

/// Reads one `name=count` field: the name is the text before the first `=`,
/// the count the rest, which must be a decimal `i32`.
pub fn parse_pair(field: &str) -> (r: Option<(String, i32)>)
    ensures
        match r {
            Some((k, n)) => pair_of(field@) == Some((k@, n)),
            None => pair_of(field@).is_none(),
        },
{
    match split_once_on(field, '=') {
        Some((k, v)) => match parse_i32(v.as_str()) {
            Some(n) => Some((k, n)),
            None => None,
        },
        None => None,
    }
}

/// Reads comma-separated `name=count` pairs into a table; malformed pairs are
/// dropped, and a later pair for the same name wins.
pub fn parse_kv(s: &str) -> (r: CountTable)
    ensures
        r.wf(),
        r@ == pairs_map(csv_fields(s@)),
{
    let fields = split_csv(s);
    let ghost fs = csv_fields(s@);
    let mut m = CountTable::new();
    let mut i: usize = 0;
    while i < fields.len()
        invariant
            i <= fields.len(),
            views(fields@) == fs,
            m.wf(),
            m@ == pairs_map(fs.take(i as int)),
        decreases fields.len() - i,
    {
        assert(fs.take(i + 1).drop_last() =~= fs.take(i as int));
        assert(fs.take(i + 1).last() == fields@[i as int]@);
        match parse_pair(fields[i].as_str()) {
            Some((k, n)) => {
                m.set(k, n);
            },
            None => {},
        }
        i = i + 1;
    }
    assert(fs.take(i as int) =~= fs);
    m
}

/// The round number at the start of a stage text such as `4-1`: the text
/// before the first `-`, read as an `i32`; 2 when that does not parse.
pub open spec fn stage_round(stage: Seq<char>) -> i32 {
    match i32_value(pieces(stage, '-')[0]) {
        Some(n) => n,
        None => 2,
    }
}

/// Reads the round number of a stage text.
pub fn leading_number(stage: &str) -> (r: i32)
    ensures
        r == stage_round(stage@),
{
    let parts = split_on(stage, '-');
    proof {
        lemma_pieces_nonempty(stage@, '-');
        assert(views(parts@)[0] == parts@[0]@);
    }
    match parse_i32(parts[0].as_str()) {
        Some(n) => n,
        None => 2,
    }
}

proof fn lemma_pieces_nonempty(s: Seq<char>, sep: char)
    ensures
        pieces(s, sep).len() >= 1,
    decreases s.len(),
{
    let i = first_sep(s, sep) as int;
    if i < s.len() {
        lemma_pieces_nonempty(s.skip(i + 1), sep);
    }
}

} // verus!
