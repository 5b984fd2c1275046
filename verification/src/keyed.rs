//! A map keyed by strings, kept as a vector of entries with distinct keys.

use vstd::prelude::*;
use crate::text::str_eq;

verus! {

/// A map from strings to values.
#[derive(Debug)]
pub struct StrMap<V> {
    entries: Vec<(String, V)>,
}

/// The keys of entries are distinct.
pub open spec fn distinct_keys<V>(e: Seq<(String, V)>) -> bool {
    forall|i: int, j: int| 0 <= i < e.len() && 0 <= j < e.len() && i != j ==> e[i].0@ != e[j].0@
}

/// Whether some entry has key `k`.
pub open spec fn has_key<V>(e: Seq<(String, V)>, k: Seq<char>) -> bool {
    exists|i: int| 0 <= i < e.len() && e[i].0@ == k
}

/// The index of the entry with key `k`.
pub open spec fn key_index<V>(e: Seq<(String, V)>, k: Seq<char>) -> int {
    choose|i: int| 0 <= i < e.len() && e[i].0@ == k
}

/// The map the entries stand for.
pub open spec fn entries_map<V>(e: Seq<(String, V)>) -> Map<Seq<char>, V> {
    Map::new(|k: Seq<char>| has_key(e, k), |k: Seq<char>| e[key_index(e, k)].1)
}

proof fn lemma_key_index<V>(e: Seq<(String, V)>, i: int)
    requires
        distinct_keys(e),
        0 <= i < e.len(),
    ensures
        has_key(e, e[i].0@),
        key_index(e, e[i].0@) == i,
{
    assert(has_key(e, e[i].0@));
    let j = key_index(e, e[i].0@);
    assert(0 <= j < e.len() && e[j].0@ == e[i].0@);
}

proof fn lemma_dom_finite_len<V>(e: Seq<(String, V)>)
    requires
        distinct_keys(e),
    ensures
        entries_map(e).dom().finite(),
        entries_map(e).dom().len() == e.len(),
    decreases e.len(),
{
    let d = entries_map(e).dom();
    if e.len() == 0 {
        assert(d =~= Set::empty());
    } else {
        let p = e.drop_last();
        lemma_dom_finite_len(p);
        assert(d =~= entries_map(p).dom().insert(e.last().0@)) by {
            assert forall|k: Seq<char>| d.contains(k) <==> entries_map(p).dom().insert(e.last().0@).contains(k) by {
                if d.contains(k) {
                    let i = choose|i: int| 0 <= i < e.len() && e[i].0@ == k;
                    if i < e.len() - 1 {
                        assert(p[i].0@ == k);
                    }
                }
                if entries_map(p).dom().contains(k) {
                    let i = choose|i: int| 0 <= i < p.len() && p[i].0@ == k;
                    assert(e[i].0@ == k);
                }
                if k == e.last().0@ {
                    assert(e[e.len() - 1].0@ == k);
                }
            }
        }
        assert(!entries_map(p).dom().contains(e.last().0@)) by {
            if entries_map(p).dom().contains(e.last().0@) {
                let i = choose|i: int| 0 <= i < p.len() && p[i].0@ == e.last().0@;
                assert(e[i].0@ == e[e.len() - 1].0@);
            }
        }
    }
}

impl<V> StrMap<V> {
    pub closed spec fn wf(&self) -> bool {
        distinct_keys(self.entries@)
    }

    pub closed spec fn view(&self) -> Map<Seq<char>, V> {
        entries_map(self.entries@)
    }

    /// The entries in insertion order.
    pub closed spec fn entry_seq(&self) -> Seq<(String, V)> {
        self.entries@
    }

    pub fn new() -> (r: StrMap<V>)
        ensures
            r.wf(),
            r.view() == Map::<Seq<char>, V>::empty(),
    {
        let r = StrMap { entries: Vec::new() };
        assert(r.view() =~= Map::<Seq<char>, V>::empty());
        r
    }

    /// The map is finite and has as many keys as entries.
    pub proof fn lemma_len(&self)
        requires
            self.wf(),
        ensures
            self.view().dom().finite(),
            self.view().dom().len() == self.entry_seq().len(),
    {
        lemma_dom_finite_len(self.entries@);
    }

    fn position(&self, key: &str) -> (r: Option<usize>)
        requires
            self.wf(),
        ensures
            r matches Some(i) ==> i < self.entries@.len() && self.entries@[i as int].0@ == key@,
            r is None ==> !has_key(self.entries@, key@),
    {
        let mut i: usize = 0;
        while i < self.entries.len()
            invariant
                0 <= i <= self.entries@.len(),
                forall|j: int| 0 <= j < i ==> self.entries@[j].0@ != key@,
            decreases self.entries@.len() - i,
        {
            if str_eq(self.entries[i].0.as_str(), key) {
                return Some(i);
            }
            i = i + 1;
        }
        None
    }

    /// The value for `key`.
    pub fn get(&self, key: &str) -> (r: Option<&V>)
        requires
            self.wf(),
        ensures
            match r {
                Some(v) => self.view().contains_key(key@) && *v == self.view()[key@],
                None => !self.view().contains_key(key@),
            },
    {
        match self.position(key) {
            Some(i) => {
                proof {
                    lemma_key_index(self.entries@, i as int);
                }
                Some(&self.entries[i].1)
            },
            None => None,
        }
    }

    pub fn contains_key(&self, key: &str) -> (r: bool)
        requires
            self.wf(),
        ensures
            r == self.view().contains_key(key@),
    {
        self.position(key).is_some()
    }

    /// The number of keys.
    pub fn len(&self) -> (r: usize)
        requires
            self.wf(),
        ensures
            r == self.view().dom().len(),
    {
        proof {
            lemma_dom_finite_len(self.entries@);
        }
        self.entries.len()
    }

    /// The keys, in insertion order.
    pub fn keys(&self) -> (r: Vec<String>)
        requires
            self.wf(),
        ensures
            forall|k: Seq<char>| self.view().contains_key(k) <==> exists|i: int| 0 <= i < r@.len() && (#[trigger] r@[i])@ == k,
            r@.len() == self.view().dom().len(),
    {
        let mut out: Vec<String> = Vec::new();
        let mut i: usize = 0;
        while i < self.entries.len()
            invariant
                0 <= i <= self.entries@.len(),
                out@.len() == i,
                forall|j: int| 0 <= j < i ==> (#[trigger] out@[j])@ == self.entries@[j].0@,
            decreases self.entries@.len() - i,
        {
            out.push(self.entries[i].0.clone());
            i = i + 1;
        }
        proof {
            lemma_dom_finite_len(self.entries@);
            assert forall|k: Seq<char>| self.view().contains_key(k) <==> exists|j: int| 0 <= j < out@.len() && (#[trigger] out@[j])@ == k by {
                if self.view().contains_key(k) {
                    let a = choose|a: int| 0 <= a < self.entries@.len() && self.entries@[a].0@ == k;
                    assert(out@[a]@ == k);
                }
                if exists|j: int| 0 <= j < out@.len() && (#[trigger] out@[j])@ == k {
                    let a = choose|j: int| 0 <= j < out@.len() && (#[trigger] out@[j])@ == k;
                    assert(self.entries@[a].0@ == k);
                    assert(has_key(self.entries@, k));
                }
            }
        }
        out
    }

    /// Sets the value of `key`, keeping the position of an existing key.
    pub fn insert(&mut self, key: String, value: V)
        requires
            old(self).wf(),
        ensures
            final(self).wf(),
            final(self).view() == old(self).view().insert(key@, value),
    {
        let ghost k = key@;
        let ghost before = self.entries@;
        match self.position(key.as_str()) {
            Some(i) => {
                self.entries.set(i, (key, value));
                proof {
                    let e = self.entries@;
                    assert(distinct_keys(e)) by {
                        assert forall|a: int, b: int| 0 <= a < e.len() && 0 <= b < e.len() && a != b implies e[a].0@ != e[b].0@ by {
                            assert(e[a].0@ == before[a].0@);
                            assert(e[b].0@ == before[b].0@);
                        }
                    }
                    assert forall|q: Seq<char>| #[trigger] has_key(e, q) == has_key(before, q) by {
                        if has_key(e, q) {
                            let a = choose|a: int| 0 <= a < e.len() && e[a].0@ == q;
                            assert(before[a].0@ == q);
                        }
                        if has_key(before, q) {
                            let a = choose|a: int| 0 <= a < before.len() && before[a].0@ == q;
                            assert(e[a].0@ == q);
                        }
                    }
                    assert forall|q: Seq<char>| has_key(e, q) implies e[key_index(e, q)].1 == (if q == k { value } else {
                        before[key_index(before, q)].1 }) by {
                        let a = key_index(e, q);
                        lemma_key_index(e, a);
                        lemma_key_index(before, a);
                    }
                    assert(self.view() =~= entries_map(before).insert(k, value));
                }
            },
            None => {
                self.entries.push((key, value));
                proof {
                    let e = self.entries@;
                    assert(distinct_keys(e)) by {
                        assert forall|a: int, b: int| 0 <= a < e.len() && 0 <= b < e.len() && a != b implies e[a].0@ != e[b].0@ by {
                            if a < before.len() && b < before.len() {
                                assert(e[a] == before[a]);
                                assert(e[b] == before[b]);
                            } else if a < before.len() {
                                assert(e[a] == before[a]);
                            } else {
                                assert(e[b] == before[b]);
                            }
                        }
                    }
                    assert forall|q: Seq<char>| #[trigger] has_key(e, q) == (has_key(before, q) || q == k) by {
                        if has_key(e, q) {
                            let a = choose|a: int| 0 <= a < e.len() && e[a].0@ == q;
                            if a < before.len() {
                                assert(before[a].0@ == q);
                            }
                        }
                        if has_key(before, q) {
                            let a = choose|a: int| 0 <= a < before.len() && before[a].0@ == q;
                            assert(e[a].0@ == q);
                        }
                        if q == k {
                            assert(e[before.len() as int].0@ == q);
                        }
                    }
                    assert forall|q: Seq<char>| has_key(e, q) implies e[key_index(e, q)].1 == (if q == k { value } else {
                        before[key_index(before, q)].1 }) by {
                        let a = key_index(e, q);
                        lemma_key_index(e, a);
                        if a < before.len() {
                            assert(e[a] == before[a]);
                            lemma_key_index(before, a);
                        }
                    }
                    assert(self.view() =~= entries_map(before).insert(k, value));
                }
            },
        }
    }
}

} // verus!
