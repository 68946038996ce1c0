//! A small map keyed by text, kept as a list of entries with distinct keys.

use vstd::prelude::*;
use crate::chars::text_eq;

verus! {

/// Whether some entry has key `q`.
pub open spec fn has_key<T>(es: Seq<(String, T)>, q: Seq<char>) -> bool {
    exists|i: int| 0 <= i < es.len() && (#[trigger] es[i]).0@ == q
}

/// No two entries share a key.
pub open spec fn unique_keys<T>(es: Seq<(String, T)>) -> bool {
    forall|i: int, j: int|
        0 <= i < es.len() && 0 <= j < es.len() && i != j ==> (#[trigger] es[i]).0@ != (
        #[trigger] es[j]).0@
}

/// The map the entries describe.
pub open spec fn entries_map<T>(es: Seq<(String, T)>) -> Map<Seq<char>, T> {
    Map::new(
        |q: Seq<char>| has_key(es, q),
        |q: Seq<char>| es[choose|i: int| 0 <= i < es.len() && (#[trigger] es[i]).0@ == q].1,
    )
}

/// With distinct keys, the map sends each entry's key to its value.
pub proof fn lemma_entries_map_at<T>(es: Seq<(String, T)>, j: int)
    requires
        unique_keys(es),
        0 <= j < es.len(),
    ensures
        entries_map(es).contains_key(es[j].0@),
        entries_map(es)[es[j].0@] == es[j].1,
{
    let q = es[j].0@;
    assert(has_key(es, q));
    let i = choose|i: int| 0 <= i < es.len() && (#[trigger] es[i]).0@ == q;
    assert(i == j);
}

/// A map from text keys to values.
#[derive(Debug)]
pub struct TextMap<T> {
    entries: Vec<(String, T)>,
}

impl<T> View for TextMap<T> {
    type V = Map<Seq<char>, T>;

    closed spec fn view(&self) -> Map<Seq<char>, T> {
        entries_map(self.entries@)
    }
}

impl<T> TextMap<T> {
    /// The entries have distinct keys.
    #[verifier::type_invariant]
    closed spec fn wf(&self) -> bool {
        unique_keys(self.entries@)
    }

    /// The entries, in the order they are kept.
    pub closed spec fn entry_seq(&self) -> Seq<(String, T)> {
        self.entries@
    }

    /// What a map holds is what its entries say, and it is empty exactly
    /// when it keeps no entry.
    pub proof fn lemma_view_is_entries(&self)
        ensures
            self@ == entries_map(self.entry_seq()),
            (self.entry_seq().len() == 0) == (self@ == Map::<Seq<char>, T>::empty()),
    {
        let es = self.entries@;
        if es.len() == 0 {
            assert(entries_map(es) =~= Map::<Seq<char>, T>::empty());
        } else {
            assert(has_key(es, es[0].0@));
            assert(entries_map(es).contains_key(es[0].0@));
        }
    }

    /// An empty map.
    pub fn new() -> (m: Self)
        ensures
            m@ == Map::<Seq<char>, T>::empty(),
            m.entry_seq().len() == 0,
    {
        let m = TextMap { entries: Vec::new() };
        assert(m@ =~= Map::<Seq<char>, T>::empty());
        m
    }

    /// The position of the entry with key `k`, if any.
    fn find(&self, k: &str) -> (r: Option<usize>)
        ensures
            r matches Some(i) ==> i < self.entries@.len() && self.entries@[i as int].0@ == k@,
            r is None ==> !has_key(self.entries@, k@),
    {
        let n = self.entries.len();
        for i in 0..n
            invariant
                n == self.entries@.len(),
                forall|j: int| 0 <= j < i ==> (#[trigger] self.entries@[j]).0@ != k@,
        {
            if text_eq(self.entries[i].0.as_str(), k) {
                return Some(i);
            }
        }
        None
    }

    /// The value under key `k`, if any.
    pub fn get(&self, k: &str) -> (r: Option<&T>)
        ensures
            r is Some == self@.contains_key(k@),
            r matches Some(v) ==> *v == self@[k@],
    {
        proof {
            use_type_invariant(self);
        }
        match self.find(k) {
            Some(i) => {
                proof {
                    lemma_entries_map_at(self.entries@, i as int);
                }
                Some(&self.entries[i].1)
            },
            None => None,
        }
    }

    /// Sets the value under key `k`, replacing any earlier one.
    pub fn insert(&mut self, k: String, v: T)
        ensures
            final(self)@ == old(self)@.insert(k@, v),
    {
        proof {
            use_type_invariant(&*self);
        }
        let ghost kv = k@;
        let found = self.find(k.as_str());
        let mut es: Vec<(String, T)> = Vec::new();
        std::mem::swap(&mut es, &mut self.entries);
        if let Some(i) = found {
            let ghost before = es@;
            let _old = es.remove(i);
            proof {
                lemma_remove_entry(before, i as int);
            }
        }
        let ghost mid = es@;
        proof {
            let es = mid.push((k, v));
            assert(es.drop_last() =~= mid);
            assert forall|a: int, b: int|
                0 <= a < es.len() && 0 <= b < es.len() && a != b implies (#[trigger] es[a]).0@ != (
            #[trigger] es[b]).0@ by {
                if a == es.len() - 1 {
                    assert(es[b] == mid[b]);
                } else if b == es.len() - 1 {
                    assert(es[a] == mid[a]);
                } else {
                    assert(es[a] == mid[a]);
                    assert(es[b] == mid[b]);
                }
            }
            assert forall|q: Seq<char>| has_key(es, q) == (q == kv || has_key(mid, q)) by {
                if has_key(es, q) {
                    let j = choose|j: int| 0 <= j < es.len() && (#[trigger] es[j]).0@ == q;
                    if j < mid.len() {
                        assert(mid[j] == es[j]);
                    }
                }
                if has_key(mid, q) {
                    let j = choose|j: int| 0 <= j < mid.len() && (#[trigger] mid[j]).0@ == q;
                    assert(es[j] == mid[j]);
                }
                if q == kv {
                    assert(es[es.len() - 1].0@ == kv);
                }
            }
            assert forall|q: Seq<char>| #[trigger] has_key(mid, q) && q != kv implies entries_map(
                es,
            )[q] == entries_map(mid)[q] by {
                let j = choose|j: int| 0 <= j < mid.len() && (#[trigger] mid[j]).0@ == q;
                assert(es[j] == mid[j]);
                lemma_entries_map_at(es, j);
                lemma_entries_map_at(mid, j);
            }
            lemma_entries_map_at(es, es.len() - 1);
            assert(entries_map(es) =~= entries_map(mid).insert(kv, v));
        }
        es.push((k, v));
        self.entries = es;
    }

    /// Takes out the value under key `k`, if any.
    pub fn remove(&mut self, k: &str) -> (r: Option<T>)
        ensures
            r is Some == old(self)@.contains_key(k@),
            r matches Some(v) ==> v == old(self)@[k@],
            final(self)@ == old(self)@.remove(k@),
    {
        proof {
            use_type_invariant(&*self);
        }
        match self.find(k) {
            Some(i) => {
                let mut es: Vec<(String, T)> = Vec::new();
                std::mem::swap(&mut es, &mut self.entries);
                let ghost before = es@;
                proof {
                    lemma_entries_map_at(before, i as int);
                }
                let (_key, v) = es.remove(i);
                proof {
                    lemma_remove_entry(before, i as int);
                }
                self.entries = es;
                Some(v)
            },
            None => {
                assert(entries_map(self.entries@) =~= entries_map(self.entries@).remove(k@));
                None
            },
        }
    }

    /// The entries, each key once.
    pub fn entries(&self) -> (es: &Vec<(String, T)>)
        ensures
            es@ == self.entry_seq(),
            unique_keys(es@),
            self@ == entries_map(es@),
    {
        proof {
            use_type_invariant(self);
        }
        &self.entries
    }
}

/// The map of distinct-key entries has one key per entry.
pub proof fn lemma_keys_finite<T>(es: Seq<(String, T)>)
    requires
        unique_keys(es),
    ensures
        entries_map(es).dom().finite(),
        entries_map(es).len() == es.len(),
    decreases es.len(),
{
    if es.len() == 0 {
        assert(entries_map(es).dom() =~= Set::<Seq<char>>::empty());
    } else {
        let d = es.drop_last();
        assert(unique_keys(d)) by {
            assert forall|a: int, b: int|
                0 <= a < d.len() && 0 <= b < d.len() && a != b implies (#[trigger] d[a]).0@ != (
            #[trigger] d[b]).0@ by {
                assert(d[a] == es[a]);
                assert(d[b] == es[b]);
            }
        }
        lemma_keys_finite(d);
        let k = es.last().0@;
        assert(!has_key(d, k)) by {
            if has_key(d, k) {
                let j = choose|j: int| 0 <= j < d.len() && (#[trigger] d[j]).0@ == k;
                assert(d[j] == es[j]);
                assert(es[es.len() - 1] == es.last());
            }
        }
        assert(entries_map(es).dom() =~= entries_map(d).dom().insert(k)) by {
            assert forall|q: Seq<char>| has_key(es, q) == (has_key(d, q) || q == k) by {
                if has_key(es, q) {
                    let j = choose|j: int| 0 <= j < es.len() && (#[trigger] es[j]).0@ == q;
                    if j < d.len() {
                        assert(d[j] == es[j]);
                    }
                }
                if has_key(d, q) {
                    let j = choose|j: int| 0 <= j < d.len() && (#[trigger] d[j]).0@ == q;
                    assert(es[j] == d[j]);
                }
                if q == k {
                    assert(es[es.len() - 1].0@ == k);
                }
            }
        }
    }
}

proof fn lemma_remove_entry<T>(es: Seq<(String, T)>, i: int)
    requires
        unique_keys(es),
        0 <= i < es.len(),
    ensures
        unique_keys(es.remove(i)),
        entries_map(es.remove(i)) == entries_map(es).remove(es[i].0@),
{
    let r = es.remove(i);
    let k = es[i].0@;
    assert forall|a: int, b: int|
        0 <= a < r.len() && 0 <= b < r.len() && a != b implies (#[trigger] r[a]).0@ != (
    #[trigger] r[b]).0@ by {
        let a2 = if a < i { a } else { a + 1 };
        let b2 = if b < i { b } else { b + 1 };
        assert(r[a] == es[a2]);
        assert(r[b] == es[b2]);
    }
    assert forall|q: Seq<char>| has_key(r, q) == (has_key(es, q) && q != k) by {
        if has_key(r, q) {
            let j = choose|j: int| 0 <= j < r.len() && (#[trigger] r[j]).0@ == q;
            let j2 = if j < i { j } else { j + 1 };
            assert(r[j] == es[j2]);
        }
        if has_key(es, q) && q != k {
            let j = choose|j: int| 0 <= j < es.len() && (#[trigger] es[j]).0@ == q;
            let j2 = if j < i { j } else { j - 1 };
            assert(r[j2] == es[j]);
        }
    }
    assert forall|q: Seq<char>| #[trigger] has_key(r, q) implies entries_map(r)[q] == entries_map(
        es,
    )[q] by {
        let j = choose|j: int| 0 <= j < r.len() && (#[trigger] r[j]).0@ == q;
        let j2 = if j < i { j } else { j + 1 };
        assert(r[j] == es[j2]);
        lemma_entries_map_at(r, j);
        lemma_entries_map_at(es, j2);
    }
    assert(entries_map(r) =~= entries_map(es).remove(k));
}

} // verus!
