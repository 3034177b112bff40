//! A small string-to-string map kept as a vector of entries with distinct keys.

use vstd::prelude::*;
use crate::text::str_equal;

verus! {

/// The keys of `s` are pairwise distinct.
pub open spec fn keys_distinct(s: Seq<(String, String)>) -> bool {
    forall|i: int, j: int|
        0 <= i < s.len() && 0 <= j < s.len() && i != j ==> #[trigger] s[i].0@ != #[trigger] s[j].0@
}

/// Some entry of `s` has key `k`.
pub open spec fn has_key(s: Seq<(String, String)>, k: Seq<char>) -> bool {
    exists|i: int| 0 <= i < s.len() && #[trigger] s[i].0@ == k
}

/// The map that the entries `s` describe: each key to the value of its entry.
pub open spec fn entries_map(s: Seq<(String, String)>) -> Map<Seq<char>, Seq<char>> {
    Map::new(
        |k: Seq<char>| has_key(s, k),
        |k: Seq<char>| s[choose|i: int| 0 <= i < s.len() && #[trigger] s[i].0@ == k].1@,
    )
}

/// With distinct keys, the entry at `i` gives the value of its key.
pub proof fn lemma_entries_map_at(s: Seq<(String, String)>, i: int)
    requires
        keys_distinct(s),
        0 <= i < s.len(),
    ensures
        entries_map(s).contains_key(s[i].0@),
        entries_map(s)[s[i].0@] == s[i].1@,
{
    assert(has_key(s, s[i].0@));
    let j = choose|j: int| 0 <= j < s.len() && #[trigger] s[j].0@ == s[i].0@;
    assert(s[j].0@ == s[i].0@);
}

/// A map from strings to strings; its entries keep the order of first insertion.
#[derive(Debug)]
pub struct StrMap {
    entries: Vec<(String, String)>,
}

impl Clone for StrMap {
    /// An entry-by-entry copy: the same entries in the same order.
    fn clone(&self) -> (r: Self)
        ensures
            r@ == self@,
            r.entry_views() == self.entry_views(),
            r.wf() == self.wf(),
    {
        let n = self.entries.len();
        let mut entries: Vec<(String, String)> = Vec::new();
        let mut i: usize = 0;
        while i < n
            invariant
                n == self.entries@.len(),
                i <= n,
                entries@ == self.entries@.take(i as int),
            decreases n - i,
        {
            let k = self.entries[i].0.clone();
            let v = self.entries[i].1.clone();
            entries.push((k, v));
            assert(entries@ =~= self.entries@.take(i + 1));
            i = i + 1;
        }
        assert(entries@ =~= self.entries@);
        StrMap { entries }
    }
}

impl View for StrMap {
    type V = Map<Seq<char>, Seq<char>>;

    closed spec fn view(&self) -> Map<Seq<char>, Seq<char>> {
        entries_map(self.entries@)
    }
}

impl StrMap {
    /// The entries are well formed: no key occurs twice.
    pub closed spec fn wf(&self) -> bool {
        keys_distinct(self.entries@)
    }

    /// The entries in insertion order, as plain views.
    pub closed spec fn entry_views(&self) -> Seq<(Seq<char>, Seq<char>)> {
        self.entries@.map_values(|e: (String, String)| (e.0@, e.1@))
    }

    /// An empty map.
    pub fn new() -> (m: StrMap)
        ensures
            m.wf(),
            m@ == Map::<Seq<char>, Seq<char>>::empty(),
            m.entry_views() == Seq::<(Seq<char>, Seq<char>)>::empty(),
    {
        let m = StrMap { entries: Vec::new() };
        assert(m@ =~= Map::<Seq<char>, Seq<char>>::empty());
        assert(m.entry_views() =~= Seq::<(Seq<char>, Seq<char>)>::empty());
        m
    }

    /// The number of keys.
    pub fn len(&self) -> (n: usize)
        requires
            self.wf(),
        ensures
            n == self@.len(),
            n == self.entry_views().len(),
    {
        proof {
            self.lemma_len();
        }
        self.entries.len()
    }

    proof fn lemma_len(&self)
        requires
            self.wf(),
        ensures
            self@.dom().finite(),
            self@.len() == self.entries@.len(),
        decreases self.entries@.len(),
    {
        let s = self.entries@;
        let keys = s.map_values(|e: (String, String)| e.0@);
        assert(self@.dom() =~= keys.to_set()) by {
            assert forall|k: Seq<char>| self@.dom().contains(k) implies keys.to_set().contains(k) by {
                let i = choose|i: int| 0 <= i < s.len() && #[trigger] s[i].0@ == k;
                assert(keys[i] == k);
            }
            assert forall|k: Seq<char>| keys.to_set().contains(k) implies self@.dom().contains(k) by {
                let i = choose|i: int| 0 <= i < keys.len() && keys[i] == k;
                assert(s[i].0@ == k);
            }
        }
        assert(keys.no_duplicates()) by {
            assert forall|i: int, j: int|
                0 <= i < keys.len() && 0 <= j < keys.len() && i != j implies keys[i] != keys[j] by {
                assert(s[i].0@ != s[j].0@);
            }
        }
        keys.unique_seq_to_set();
    }

    /// Position of the entry with key `k`, if any.
    fn find(&self, k: &str) -> (r: Option<usize>)
        requires
            self.wf(),
        ensures
            match r {
                Some(i) => i < self.entries@.len() && self.entries@[i as int].0@ == k@,
                None => !has_key(self.entries@, k@),
            },
    {
        let n = self.entries.len();
        let mut i: usize = 0;
        while i < n
            invariant
                n == self.entries@.len(),
                i <= n,
                forall|j: int| 0 <= j < i ==> #[trigger] self.entries@[j].0@ != k@,
            decreases n - i,
        {
            if str_equal(self.entries[i].0.as_str(), k) {
                return Some(i);
            }
            i = i + 1;
        }
        None
    }

    /// The value stored under `k`.
    pub fn get(&self, k: &str) -> (r: Option<String>)
        requires
            self.wf(),
        ensures
            match r {
                Some(v) => self@.contains_key(k@) && v@ == self@[k@],
                None => !self@.contains_key(k@),
            },
    {
        match self.find(k) {
            Some(i) => {
                proof {
                    lemma_entries_map_at(self.entries@, i as int);
                }
                Some(self.entries[i].1.clone())
            },
            None => None,
        }
    }

    /// Stores `v` under `k`, replacing any earlier value; a new key goes last.
    pub fn insert(&mut self, k: String, v: String)
        requires
            old(self).wf(),
        ensures
            final(self).wf(),
            final(self)@ == old(self)@.insert(k@, v@),
            old(self)@.contains_key(k@) ==> final(self).entry_views().len() == old(self).entry_views().len(),
            !old(self)@.contains_key(k@) ==> final(self).entry_views() == old(self).entry_views().push((k@, v@)),
    {
        let ghost old_s = self.entries@;
        match self.find(k.as_str()) {
            Some(i) => {
                self.entries.set(i, (k, v));
                proof {
                    let s = self.entries@;
                    assert(keys_distinct(s)) by {
                        assert forall|a: int, b: int|
                            0 <= a < s.len() && 0 <= b < s.len() && a != b implies #[trigger] s[a].0@
                            != #[trigger] s[b].0@ by {
                            assert(old_s[a].0@ != old_s[b].0@);
                        }
                    }
                    assert(entries_map(s) =~= entries_map(old_s).insert(k@, v@)) by {
                        assert forall|key: Seq<char>|
                            #[trigger] entries_map(s).contains_key(key) <==> entries_map(
                                old_s,
                            ).insert(k@, v@).contains_key(key) by {
                            if has_key(s, key) {
                                let j = choose|j: int| 0 <= j < s.len() && #[trigger] s[j].0@ == key;
                                if j != i {
                                    assert(old_s[j].0@ == key);
                                }
                            }
                            if has_key(old_s, key) {
                                let j = choose|j: int| 0 <= j < old_s.len() && #[trigger] old_s[j].0@ == key;
                                assert(s[j].0@ == key);
                            }
                        }
                        assert forall|key: Seq<char>| #[trigger] entries_map(s).contains_key(key)
                            implies entries_map(s)[key] == entries_map(old_s).insert(k@, v@)[key] by {
                            let j = choose|j: int| 0 <= j < s.len() && #[trigger] s[j].0@ == key;
                            lemma_entries_map_at(s, j);
                            if j != i {
                                assert(old_s[j] == s[j]);
                                lemma_entries_map_at(old_s, j);
                            }
                        }
                    }
                }
            },
            None => {
                self.entries.push((k, v));
                proof {
                    let s = self.entries@;
                    assert(keys_distinct(s)) by {
                        assert forall|a: int, b: int|
                            0 <= a < s.len() && 0 <= b < s.len() && a != b implies #[trigger] s[a].0@
                            != #[trigger] s[b].0@ by {
                            if a < old_s.len() && b < old_s.len() {
                                assert(old_s[a].0@ != old_s[b].0@);
                            } else if a < old_s.len() {
                                assert(old_s[a].0@ != k@);
                            } else {
                                assert(old_s[b].0@ != k@);
                            }
                        }
                    }
                    assert(entries_map(s) =~= entries_map(old_s).insert(k@, v@)) by {
                        assert forall|key: Seq<char>|
                            #[trigger] entries_map(s).contains_key(key) <==> entries_map(
                                old_s,
                            ).insert(k@, v@).contains_key(key) by {
                            if has_key(s, key) {
                                let j = choose|j: int| 0 <= j < s.len() && #[trigger] s[j].0@ == key;
                                if j < old_s.len() {
                                    assert(old_s[j].0@ == key);
                                }
                            }
                            if has_key(old_s, key) {
                                let j = choose|j: int| 0 <= j < old_s.len() && #[trigger] old_s[j].0@ == key;
                                assert(s[j].0@ == key);
                            }
                            if key == k@ {
                                assert(s[old_s.len() as int].0@ == key);
                            }
                        }
                        assert forall|key: Seq<char>| #[trigger] entries_map(s).contains_key(key)
                            implies entries_map(s)[key] == entries_map(old_s).insert(k@, v@)[key] by {
                            let j = choose|j: int| 0 <= j < s.len() && #[trigger] s[j].0@ == key;
                            lemma_entries_map_at(s, j);
                            if j < old_s.len() {
                                assert(old_s[j] == s[j]);
                                lemma_entries_map_at(old_s, j);
                            }
                        }
                    }
                    assert(self.entry_views() =~= old_s.map_values(
                        |e: (String, String)| (e.0@, e.1@),
                    ).push((k@, v@)));
                }
            },
        }
    }

    /// A copy of all entries, in insertion order.
    pub fn to_vec(&self) -> (r: Vec<(String, String)>)
        requires
            self.wf(),
        ensures
            r@.map_values(|e: (String, String)| (e.0@, e.1@)) == self.entry_views(),
            entries_map(r@) == self@,
            keys_distinct(r@),
    {
        let n = self.entries.len();
        let mut r: Vec<(String, String)> = Vec::new();
        let mut i: usize = 0;
        while i < n
            invariant
                n == self.entries@.len(),
                i <= n,
                r@.len() == i,
                forall|j: int| 0 <= j < i ==> #[trigger] r@[j].0@ == self.entries@[j].0@ && r@[j].1@
                    == self.entries@[j].1@,
            decreases n - i,
        {
            let k = self.entries[i].0.clone();
            let v = self.entries[i].1.clone();
            r.push((k, v));
            i = i + 1;
        }
        proof {
            let s = self.entries@;
            assert(r@.map_values(|e: (String, String)| (e.0@, e.1@)) =~= self.entry_views());
            assert(keys_distinct(r@)) by {
                assert forall|a: int, b: int|
                    0 <= a < r@.len() && 0 <= b < r@.len() && a != b implies #[trigger] r@[a].0@
                    != #[trigger] r@[b].0@ by {
                    assert(s[a].0@ != s[b].0@);
                }
            }
            assert(entries_map(r@) =~= entries_map(s)) by {
                assert forall|key: Seq<char>|
                    #[trigger] entries_map(r@).contains_key(key) <==> entries_map(s).contains_key(key) by {
                    if has_key(r@, key) {
                        let j = choose|j: int| 0 <= j < r@.len() && #[trigger] r@[j].0@ == key;
                        assert(s[j].0@ == key);
                    }
                    if has_key(s, key) {
                        let j = choose|j: int| 0 <= j < s.len() && #[trigger] s[j].0@ == key;
                        assert(r@[j].0@ == key);
                    }
                }
                assert forall|key: Seq<char>| #[trigger] entries_map(r@).contains_key(key)
                    implies entries_map(r@)[key] == entries_map(s)[key] by {
                    let j = choose|j: int| 0 <= j < r@.len() && #[trigger] r@[j].0@ == key;
                    lemma_entries_map_at(r@, j);
                    lemma_entries_map_at(s, j);
                }
            }
        }
        r
    }

    /// A copy of the map.
    pub fn duplicate(&self) -> (r: StrMap)
        requires
            self.wf(),
        ensures
            r.wf(),
            r@ == self@,
            r.entry_views() == self.entry_views(),
    {
        StrMap { entries: self.to_vec() }
    }
}

} // verus!
