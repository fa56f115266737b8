use vstd::prelude::*;

verus! {

/// A table from names to integer counts, one entry per name.
pub struct CountTable {
    pub entries: Vec<(String, i32)>,
}

/// The value recorded for `k` in `es` (the last entry with that name).
pub open spec fn lookup(es: Seq<(String, i32)>, k: Seq<char>) -> Option<i32>
    decreases es.len(),
{
    if es.len() == 0 {
        None
    } else if es.last().0@ == k {
        Some(es.last().1)
    } else {
        lookup(es.drop_last(), k)
    }
}

pub open spec fn distinct_names(es: Seq<(String, i32)>) -> bool {
    forall|i: int, j: int|
        0 <= i < es.len() && 0 <= j < es.len() && i != j ==> es[i].0@ != es[j].0@
}

/// With distinct names, the entry that holds `k` gives its value.
pub proof fn lemma_lookup_at(es: Seq<(String, i32)>, j: int)
    requires
        distinct_names(es),
        0 <= j < es.len(),
    ensures
        lookup(es, es[j].0@) == Some(es[j].1),
    decreases es.len(),
{
    if j != es.len() - 1 {
        assert(es.last().0@ != es[j].0@);
        let d = es.drop_last();
        assert(d[j] == es[j]);
        lemma_lookup_at(d, j);
    }
}

/// A name that no entry holds has no value.
pub proof fn lemma_lookup_absent(es: Seq<(String, i32)>, k: Seq<char>)
    requires
        forall|j: int| 0 <= j < es.len() ==> (#[trigger] es[j]).0@ != k,
    ensures
        lookup(es, k).is_none(),
    decreases es.len(),
{
    if es.len() > 0 {
        let d = es.drop_last();
        assert forall|j: int| 0 <= j < d.len() implies (#[trigger] d[j]).0@ != k by {
            assert(d[j] == es[j]);
        }
        lemma_lookup_absent(d, k);
    }
}

/// The value of `k` in `es`, read by position when names are distinct.
proof fn lemma_lookup_cases(es: Seq<(String, i32)>, k: Seq<char>)
    requires
        distinct_names(es),
    ensures
        (exists|j: int| 0 <= j < es.len() && es[j].0@ == k) || lookup(es, k).is_none(),
        forall|j: int| 0 <= j < es.len() && es[j].0@ == k ==> lookup(es, k) == Some(es[j].1),
{
    assert forall|j: int| 0 <= j < es.len() && es[j].0@ == k implies lookup(es, k) == Some(
        es[j].1,
    ) by {
        lemma_lookup_at(es, j);
    }
    if !(exists|j: int| 0 <= j < es.len() && es[j].0@ == k) {
        assert forall|j: int| 0 <= j < es.len() implies (#[trigger] es[j]).0@ != k by {}
        lemma_lookup_absent(es, k);
    }
}

impl CountTable {
    pub open spec fn wf(&self) -> bool {
        distinct_names(self.entries@)
    }

    /// The table as a map from names to counts.
    pub open spec fn view(&self) -> Map<Seq<char>, i32> {
        Map::new(
            |k: Seq<char>| lookup(self.entries@, k).is_some(),
            |k: Seq<char>| lookup(self.entries@, k).unwrap(),
        )
    }

    pub fn new() -> (r: CountTable)
        ensures
            r.wf(),
            r@ == Map::<Seq<char>, i32>::empty(),
    {
        let r = CountTable { entries: Vec::new() };
        assert(r@ =~= Map::<Seq<char>, i32>::empty());
        r
    }

    /// Position of the entry named `k`, if any.
    fn position(&self, k: &String) -> (r: Option<usize>)
        requires
            self.wf(),
        ensures
            match r {
                Some(j) => j < self.entries@.len() && self.entries@[j as int].0@ == k@,
                None => forall|j: int|
                    0 <= j < self.entries@.len() ==> (#[trigger] self.entries@[j]).0@ != k@,
            },
    {
        let mut i: usize = 0;
        while i < self.entries.len()
            invariant
                i <= self.entries@.len(),
                forall|j: int| 0 <= j < i ==> (#[trigger] self.entries@[j]).0@ != k@,
            decreases self.entries@.len() - i,
        {
            if self.entries[i].0 == *k {
                return Some(i);
            }
            i = i + 1;
        }
        None
    }

    /// The count recorded for `k`.
    pub fn get(&self, k: &String) -> (r: Option<i32>)
        requires
            self.wf(),
        ensures
            r == lookup(self.entries@, k@),
            r == (if self@.contains_key(k@) { Some(self@[k@]) } else { None }),
    {
        match self.position(k) {
            Some(j) => {
                proof {
                    lemma_lookup_at(self.entries@, j as int);
                }
                Some(self.entries[j].1)
            },
            None => {
                proof {
                    lemma_lookup_absent(self.entries@, k@);
                }
                None
            },
        }
    }

    /// Records `v` for `k`, replacing an earlier count of that name.
    pub fn set(&mut self, k: String, v: i32)
        requires
            old(self).wf(),
        ensures
            final(self).wf(),
            final(self)@ == old(self)@.insert(k@, v),
    {
        let ghost old_es = self.entries@;
        let ghost kv = k@;
        let ghost mut at: int = 0;
        match self.position(&k) {
            Some(j) => {
                self.entries.set(j, (k, v));
                proof {
                    at = j as int;
                }
            },
            None => {
                self.entries.push((k, v));
                proof {
                    at = old_es.len() as int;
                }
            },
        }
        let ghost es = self.entries@;
        assert(distinct_names(es)) by {
            assert forall|a: int, b: int|
                0 <= a < es.len() && 0 <= b < es.len() && a != b implies es[a].0@ != es[b].0@ by {
                if a < old_es.len() && b < old_es.len() && es[a].0@ != kv && es[b].0@ != kv {
                    assert(es[a] == old_es[a] && es[b] == old_es[b]);
                }
            }
        }
        assert forall|q: Seq<char>| #[trigger] lookup(es, q) == (if q == kv {
            Some(v)
        } else {
            lookup(old_es, q)
        }) by {
            lemma_lookup_cases(es, q);
            lemma_lookup_cases(old_es, q);
            if q != kv {
                if exists|j: int| 0 <= j < old_es.len() && old_es[j].0@ == q {
                    let j = choose|j: int| 0 <= j < old_es.len() && old_es[j].0@ == q;
                    assert(es[j] == old_es[j]);
                } else if exists|j: int| 0 <= j < es.len() && es[j].0@ == q {
                    let j = choose|j: int| 0 <= j < es.len() && es[j].0@ == q;
                    if j < old_es.len() {
                        assert(es[j] == old_es[j]);
                    }
                }
            } else {
                assert(es[at].0@ == q && es[at].1 == v);
            }
        }
        assert(self@ =~= old(self)@.insert(k@, v));
    }
}

} // verus!
