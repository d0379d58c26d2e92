//! A map keyed by strings, kept as a list of entries with distinct keys.
//! Its view is a `Map` from the keys' characters to the values.

use vstd::prelude::*;
use crate::text::{str_eq, views};

verus! {

/// Keys of the entries, by their characters.
pub open spec fn entry_keys<V>(s: Seq<(String, V)>) -> Seq<Seq<char>> {
    s.map_values(|e: (String, V)| e.0@)
}

/// The map that a list of entries stands for (later entries win).
pub open spec fn entries_map<V>(s: Seq<(String, V)>) -> Map<Seq<char>, V>
    decreases s.len(),
{
    if s.len() == 0 {
        Map::empty()
    } else {
        entries_map(s.drop_last()).insert(s.last().0@, s.last().1)
    }
}

proof fn lemma_entries_map_has<V>(s: Seq<(String, V)>, i: int)
    requires
        0 <= i < s.len(),
        entry_keys(s).no_duplicates(),
    ensures
        entries_map(s).contains_key(s[i].0@),
        entries_map(s)[s[i].0@] == s[i].1,
    decreases s.len(),
{
    if i < s.len() - 1 {
        let p = s.drop_last();
        assert(entry_keys(p) =~= entry_keys(s).drop_last());
        assert(entry_keys(s)[i] != entry_keys(s)[s.len() - 1]);
        lemma_entries_map_has(p, i);
    }
}

proof fn lemma_entries_map_dom<V>(s: Seq<(String, V)>)
    ensures
        entries_map(s).dom() == entry_keys(s).to_set(),
    decreases s.len(),
{
    if s.len() > 0 {
        let p = s.drop_last();
        lemma_entries_map_dom(p);
        assert(entry_keys(s) =~= entry_keys(p).push(s.last().0@));
        entry_keys(p).lemma_push_to_set_commute(s.last().0@);
        assert(entries_map(s).dom() =~= entry_keys(s).to_set());
    } else {
        assert(entries_map(s).dom() =~= entry_keys(s).to_set());
    }
}

proof fn lemma_entries_map_equal<V>(s: Seq<(String, V)>, m: Map<Seq<char>, V>)
    requires
        entry_keys(s).no_duplicates(),
        m.dom() == entry_keys(s).to_set(),
        forall|i: int| 0 <= i < s.len() ==> m[#[trigger] s[i].0@] == s[i].1,
    ensures
        entries_map(s) == m,
{
    lemma_entries_map_dom(s);
    assert forall|k: Seq<char>| #[trigger] m.contains_key(k) implies entries_map(s)[k] == m[k] by {
        assert(entry_keys(s).contains(k));
        let i = choose|i: int| 0 <= i < entry_keys(s).len() && entry_keys(s)[i] == k;
        assert(s[i].0@ == k);
        lemma_entries_map_has(s, i);
    }
    assert(entries_map(s) =~= m);
}

/// A map from strings to values.
#[derive(Debug)]
pub struct StrMap<V> {
    entries: Vec<(String, V)>,
}

impl<V> View for StrMap<V> {
    type V = Map<Seq<char>, V>;

    closed spec fn view(&self) -> Map<Seq<char>, V> {
        entries_map(self.entries@)
    }
}

impl<V> StrMap<V> {
    #[verifier::type_invariant]
    spec fn keys_distinct(&self) -> bool {
        entry_keys(self.entries@).no_duplicates()
    }

    /// The keys, in the map's own (unspecified but fixed) order.
    pub closed spec fn key_seq(&self) -> Seq<Seq<char>> {
        entry_keys(self.entries@)
    }

    /// The listed keys are exactly the keys of the map.
    pub proof fn lemma_key_seq_is_dom(&self)
        ensures
            self.key_seq().to_set() == self@.dom(),
    {
        lemma_entries_map_dom(self.entries@);
    }

    /// An empty map.
    pub fn new() -> (m: Self)
        ensures
            m@ == Map::<Seq<char>, V>::empty(),
            m.key_seq() == Seq::<Seq<char>>::empty(),
    {
        let m = StrMap { entries: Vec::new() };
        assert(m@ =~= Map::<Seq<char>, V>::empty());
        m
    }

    /// The number of keys.
    /// Also: the key order lists every key once and nothing else.
    pub fn len(&self) -> (n: usize)
        ensures
            n == self.key_seq().len(),
            self.key_seq().no_duplicates(),
            self.key_seq().to_set() == self@.dom(),
    {
        proof {
            use_type_invariant(self);
            lemma_entries_map_dom(self.entries@);
        }
        self.entries.len()
    }

    fn find(&self, key: &str) -> (r: Option<usize>)
        ensures
            match r {
                Some(i) => i < self.entries@.len() && self.entries@[i as int].0@ == key@,
                None => forall|i: int| 0 <= i < self.entries@.len() ==> self.entries@[i].0@ != key@,
            },
    {
        let mut i: usize = 0;
        while i < self.entries.len()
            invariant
                i <= self.entries@.len(),
                forall|k: int| 0 <= k < i ==> self.entries@[k].0@ != key@,
            decreases self.entries.len() - i,
        {
            if str_eq(self.entries[i].0.as_str(), key) {
                return Some(i);
            }
            i = i + 1;
        }
        None
    }

    /// Whether `key` has a value.
    pub fn contains_key(&self, key: &str) -> (b: bool)
        ensures
            b == self@.contains_key(key@),
    {
        proof {
            use_type_invariant(self);
            lemma_entries_map_dom(self.entries@);
        }
        match self.find(key) {
            Some(i) => {
                assert(entry_keys(self.entries@)[i as int] == key@);
                true
            },
            None => {
                assert(!entry_keys(self.entries@).contains(key@));
                false
            },
        }
    }

    /// The value of `key`, if it has one.
    pub fn get(&self, key: &str) -> (r: Option<&V>)
        ensures
            match r {
                Some(v) => self@.contains_key(key@) && *v == self@[key@],
                None => !self@.contains_key(key@),
            },
    {
        proof {
            use_type_invariant(self);
            lemma_entries_map_dom(self.entries@);
        }
        match self.find(key) {
            Some(i) => {
                proof {
                    lemma_entries_map_has(self.entries@, i as int);
                }
                Some(&self.entries[i].1)
            },
            None => {
                assert(!entry_keys(self.entries@).contains(key@));
                None
            },
        }
    }

    /// The key at position `i` of the key order.
    pub fn key_at(&self, i: usize) -> (k: &String)
        requires
            i < self.key_seq().len(),
        ensures
            k@ == self.key_seq()[i as int],
    {
        &self.entries[i].0
    }

    /// The value of the key at position `i` of the key order.
    pub fn value_at(&self, i: usize) -> (v: &V)
        requires
            i < self.key_seq().len(),
        ensures
            self@.contains_key(self.key_seq()[i as int]),
            *v == self@[self.key_seq()[i as int]],
    {
        proof {
            use_type_invariant(self);
            lemma_entries_map_has(self.entries@, i as int);
        }
        &self.entries[i].1
    }

    /// Sets the value of `key`, replacing any earlier one.
    pub fn insert(&mut self, key: String, value: V)
        ensures
            final(self)@ == old(self)@.insert(key@, value),
    {
        proof {
            use_type_invariant(&*self);
        }
        let ghost old_entries = self.entries@;
        let ghost k = key@;
        let ghost m = entries_map(old_entries).insert(k, value);
        match self.find(key.as_str()) {
            Some(i) => {
                let mut entries = Vec::new();
                std::mem::swap(&mut entries, &mut self.entries);
                entries.set(i, (key, value));
                let ghost s = entries@;
                proof {
                    assert(entry_keys(s) =~= entry_keys(old_entries).update(i as int, k));
                    assert(entry_keys(s).no_duplicates()) by {
                        assert forall|a: int, b: int|
                            0 <= a < entry_keys(s).len() && 0 <= b < entry_keys(s).len() && a != b
                                implies entry_keys(s)[a] != entry_keys(s)[b] by {
                            if a != i && b != i {
                                assert(entry_keys(old_entries)[a] != entry_keys(old_entries)[b]);
                            } else if a == i {
                                assert(entry_keys(old_entries)[a] != entry_keys(old_entries)[b]);
                            } else {
                                assert(entry_keys(old_entries)[a] != entry_keys(old_entries)[b]);
                            }
                        }
                    }
                    lemma_entries_map_dom(old_entries);
                    assert(entry_keys(old_entries)[i as int] == k);
                    assert(entry_keys(s).to_set() =~= entry_keys(old_entries).to_set()) by {
                        assert forall|x: Seq<char>| entry_keys(old_entries).contains(x) implies entry_keys(s).contains(x) by {
                            let j = choose|j: int| 0 <= j < entry_keys(old_entries).len() && entry_keys(old_entries)[j] == x;
                            assert(entry_keys(s)[j] == x);
                        }
                        assert forall|x: Seq<char>| entry_keys(s).contains(x) implies entry_keys(old_entries).contains(x) by {
                            let j = choose|j: int| 0 <= j < entry_keys(s).len() && entry_keys(s)[j] == x;
                            assert(entry_keys(old_entries)[j] == x);
                        }
                    }
                    assert(m.dom() =~= entry_keys(s).to_set());
                    assert forall|j: int| 0 <= j < s.len() implies m[#[trigger] s[j].0@] == s[j].1 by {
                        if j != i {
                            assert(entry_keys(old_entries)[j] != entry_keys(old_entries)[i as int]);
                            lemma_entries_map_has(old_entries, j);
                        }
                    }
                    lemma_entries_map_equal(s, m);
                }
                self.entries = entries;
            },
            None => {
                let mut entries = Vec::new();
                std::mem::swap(&mut entries, &mut self.entries);
                entries.push((key, value));
                proof {
                    assert(entry_keys(entries@) =~= entry_keys(old_entries).push(k));
                    assert(entries@.drop_last() =~= old_entries);
                    assert(!entry_keys(old_entries).contains(k));
                }
                self.entries = entries;
            },
        }
    }

    /// Removes `key`, giving back its value if it had one.
    pub fn remove(&mut self, key: &str) -> (r: Option<V>)
        ensures
            final(self)@ == old(self)@.remove(key@),
            match r {
                Some(v) => old(self)@.contains_key(key@) && v == old(self)@[key@],
                None => !old(self)@.contains_key(key@),
            },
    {
        proof {
            use_type_invariant(&*self);
            lemma_entries_map_dom(self.entries@);
        }
        let ghost old_entries = self.entries@;
        let ghost m = entries_map(old_entries).remove(key@);
        match self.find(key) {
            Some(i) => {
                proof {
                    lemma_entries_map_has(old_entries, i as int);
                }
                let mut entries = Vec::new();
                std::mem::swap(&mut entries, &mut self.entries);
                let removed = entries.remove(i);
                let ghost s = entries@;
                proof {
                    assert(entry_keys(s) =~= entry_keys(old_entries).remove(i as int));
                    assert(entry_keys(s).no_duplicates()) by {
                        assert forall|a: int, b: int|
                            0 <= a < entry_keys(s).len() && 0 <= b < entry_keys(s).len() && a != b
                                implies entry_keys(s)[a] != entry_keys(s)[b] by {
                            let oa = if a < i { a } else { a + 1 };
                            let ob = if b < i { b } else { b + 1 };
                            assert(entry_keys(old_entries)[oa] != entry_keys(old_entries)[ob]);
                        }
                    }
                    assert(m.dom() =~= entry_keys(s).to_set()) by {
                        assert forall|x: Seq<char>| m.dom().contains(x) implies entry_keys(s).contains(x) by {
                            let j = choose|j: int| 0 <= j < entry_keys(old_entries).len() && entry_keys(old_entries)[j] == x;
                            assert(j != i);
                            if j < i {
                                assert(entry_keys(s)[j] == x);
                            } else {
                                assert(entry_keys(s)[j - 1] == x);
                            }
                        }
                        assert forall|x: Seq<char>| entry_keys(s).contains(x) implies m.dom().contains(x) by {
                            let j = choose|j: int| 0 <= j < entry_keys(s).len() && entry_keys(s)[j] == x;
                            let oj = if j < i { j } else { j + 1 };
                            assert(entry_keys(old_entries)[oj] == x);
                            assert(entry_keys(old_entries)[oj] != entry_keys(old_entries)[i as int]);
                        }
                    }
                    assert forall|j: int| 0 <= j < s.len() implies m[#[trigger] s[j].0@] == s[j].1 by {
                        let oj = if j < i { j } else { j + 1 };
                        assert(s[j] == old_entries[oj]);
                        assert(entry_keys(old_entries)[oj] != entry_keys(old_entries)[i as int]);
                        lemma_entries_map_has(old_entries, oj);
                    }
                    lemma_entries_map_equal(s, m);
                }
                self.entries = entries;
                Some(removed.1)
            },
            None => {
                proof {
                    assert(!entry_keys(old_entries).contains(key@));
                    assert(entries_map(old_entries).remove(key@) =~= entries_map(old_entries));
                }
                None
            },
        }
    }

    /// The keys, as strings, in the map's key order.
    pub fn keys(&self) -> (ks: Vec<String>)
        ensures
            views(ks@) == self.key_seq(),
            self.key_seq().no_duplicates(),
            self.key_seq().to_set() == self@.dom(),
    {
        proof {
            use_type_invariant(self);
            lemma_entries_map_dom(self.entries@);
        }
        let mut ks: Vec<String> = Vec::new();
        let mut i: usize = 0;
        while i < self.entries.len()
            invariant
                i <= self.entries@.len(),
                views(ks@) == entry_keys(self.entries@).take(i as int),
            decreases self.entries.len() - i,
        {
            let ghost before = ks@;
            let k = self.entries[i].0.clone();
            ks.push(k);
            assert(ks@ == before.push(k));
            assert(views(ks@) =~= views(before).push(k@));
            assert(entry_keys(self.entries@).take(i + 1) =~= entry_keys(self.entries@).take(
                i as int,
            ).push(self.entries@[i as int].0@));
            i = i + 1;
        }
        assert(entry_keys(self.entries@).take(self.entries@.len() as int) =~= entry_keys(self.entries@));
        ks
    }
}


impl<V: Clone> Clone for StrMap<V> {
    /// A copy with the same keys in the same order, each value cloned.
    fn clone(&self) -> (r: Self)
        ensures
            r.key_seq() == self.key_seq(),
    {
        proof {
            use_type_invariant(self);
        }
        let mut entries: Vec<(String, V)> = Vec::new();
        let mut i: usize = 0;
        while i < self.entries.len()
            invariant
                i <= self.entries@.len(),
                entry_keys(self.entries@).no_duplicates(),
                entry_keys(entries@) == entry_keys(self.entries@).take(i as int),
            decreases self.entries.len() - i,
        {
            let ghost before = entries@;
            let k = self.entries[i].0.clone();
            let v = self.entries[i].1.clone();
            entries.push((k, v));
            assert(entry_keys(entries@) =~= entry_keys(before).push(k@));
            assert(entry_keys(self.entries@).take(i + 1) =~= entry_keys(self.entries@).take(i as int).push(
                self.entries@[i as int].0@,
            ));
            i = i + 1;
        }
        assert(entry_keys(self.entries@).take(self.entries@.len() as int) =~= entry_keys(self.entries@));
        StrMap { entries }
    }
}

} // verus!
