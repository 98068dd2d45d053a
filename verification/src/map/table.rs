//! A string-keyed table that keeps its entries in insertion order.
use vstd::prelude::*;

verus! {

/// The map that a list of entries with distinct keys stands for.
pub open spec fn entries_map<V: View>(s: Seq<(String, V)>) -> Map<Seq<char>, V::V>
    decreases s.len(),
{
    if s.len() == 0 {
        Map::empty()
    } else {
        entries_map(s.drop_last()).insert(s.last().0@, s.last().1@)
    }
}

/// No key occurs twice.
pub open spec fn distinct_keys<V>(s: Seq<(String, V)>) -> bool {
    forall|i: int, j: int| 0 <= i < j < s.len() ==> s[i].0@ != s[j].0@
}

/// The keys of a list of entries, in order.
pub open spec fn entry_keys<V>(s: Seq<(String, V)>) -> Seq<Seq<char>> {
    s.map_values(|e: (String, V)| e.0@)
}

proof fn lemma_entries_map_dom<V: View>(s: Seq<(String, V)>, k: Seq<char>)
    ensures
        entries_map(s).dom().contains(k) <==> exists|i: int| 0 <= i < s.len() && s[i].0@ == k,
    decreases s.len(),
{
    if s.len() > 0 {
        lemma_entries_map_dom(s.drop_last(), k);
        if exists|i: int| 0 <= i < s.len() - 1 && s.drop_last()[i].0@ == k {
            let i = choose|i: int| 0 <= i < s.len() - 1 && s.drop_last()[i].0@ == k;
            assert(s[i].0@ == k);
        }
        if exists|i: int| 0 <= i < s.len() && s[i].0@ == k {
            let i = choose|i: int| 0 <= i < s.len() && s[i].0@ == k;
            if i < s.len() - 1 {
                assert(s.drop_last()[i].0@ == k);
            }
        }
    }
}

proof fn lemma_entries_map_at<V: View>(s: Seq<(String, V)>, i: int)
    requires
        distinct_keys(s),
        0 <= i < s.len(),
    ensures
        entries_map(s).dom().contains(s[i].0@),
        entries_map(s)[s[i].0@] == s[i].1@,
    decreases s.len(),
{
    if i < s.len() - 1 {
        lemma_entries_map_at(s.drop_last(), i);
        assert(s.drop_last()[i] == s[i]);
    }
}

proof fn lemma_entries_map_update<V: View>(s: Seq<(String, V)>, i: int, e: (String, V))
    requires
        distinct_keys(s),
        0 <= i < s.len(),
        s[i].0@ == e.0@,
    ensures
        entries_map(s.update(i, e)) == entries_map(s).insert(e.0@, e.1@),
    decreases s.len(),
{
    let t = s.update(i, e);
    if i == s.len() - 1 {
        assert(t.drop_last() =~= s.drop_last());
        assert(entries_map(t) =~= entries_map(s).insert(e.0@, e.1@));
    } else {
        lemma_entries_map_update(s.drop_last(), i, e);
        assert(t.drop_last() =~= s.drop_last().update(i, e));
        assert(s.last().0@ != e.0@);
        assert(entries_map(t) =~= entries_map(s).insert(e.0@, e.1@));
    }
}

/// Entries keyed by distinct strings, kept in the order their keys were first inserted.
pub struct KeyedTable<V> {
    entries: Vec<(String, V)>,
}

impl<V: View> View for KeyedTable<V> {
    type V = Map<Seq<char>, V::V>;

    closed spec fn view(&self) -> Map<Seq<char>, V::V> {
        entries_map(self.entries@)
    }
}

impl<V> KeyedTable<V> {
    #[verifier::type_invariant]
    spec fn distinct(self) -> bool {
        distinct_keys(self.entries@)
    }
}

impl<V: View> KeyedTable<V> {
    /// The keys in insertion order.
    pub closed spec fn keys(self) -> Seq<Seq<char>> {
        entry_keys(self.entries@)
    }

    /// An empty table.
    pub fn new() -> (t: Self)
        ensures
            t@ == Map::<Seq<char>, V::V>::empty(),
            t.keys() == Seq::<Seq<char>>::empty(),
    {
        let t = KeyedTable { entries: Vec::new() };
        assert(t.keys() =~= Seq::<Seq<char>>::empty());
        t
    }

    /// Number of entries; the keys in insertion order are exactly the keys of the map.
    pub fn len(&self) -> (n: usize)
        ensures
            n == self.keys().len(),
            forall|i: int, j: int|
                0 <= i < j < n ==> #[trigger] self.keys()[i] != #[trigger] self.keys()[j],
            forall|k: Seq<char>| #[trigger]
                self@.dom().contains(k) <==> self.keys().contains(k),
    {
        proof {
            use_type_invariant(self);
            assert forall|k: Seq<char>| #[trigger] self@.dom().contains(k) <==> self.keys().contains(k) by {
                lemma_entries_map_dom(self.entries@, k);
                if self.keys().contains(k) {
                    let i = choose|i: int| 0 <= i < self.keys().len() && self.keys()[i] == k;
                    assert(self.entries@[i].0@ == k);
                }
                if self@.dom().contains(k) {
                    let i = choose|i: int| 0 <= i < self.entries@.len() && self.entries@[i].0@ == k;
                    assert(self.keys()[i] == k);
                }
            }
        }
        self.entries.len()
    }

    /// The `i`-th entry in insertion order.
    pub fn entry_at(&self, i: usize) -> (r: (&String, &V))
        requires
            i < self.keys().len(),
        ensures
            r.0@ == self.keys()[i as int],
            self@.dom().contains(r.0@),
            self@[r.0@] == r.1@,
    {
        proof {
            use_type_invariant(self);
            lemma_entries_map_at(self.entries@, i as int);
        }
        let e = &self.entries[i];
        (&e.0, &e.1)
    }

    /// Position of `key` among the entries.
    fn find_index(&self, key: &str) -> (r: Option<usize>)
        ensures
            match r {
                Some(i) => i < self.entries@.len() && self.entries@[i as int].0@ == key@,
                None => !self@.dom().contains(key@),
            },
    {
        let k = key.to_owned();
        let mut i: usize = 0;
        while i < self.entries.len()
            invariant
                k@ == key@,
                i <= self.entries@.len(),
                forall|j: int| 0 <= j < i ==> self.entries@[j].0@ != key@,
            decreases self.entries@.len() - i,
        {
            if self.entries[i].0 == k {
                return Some(i);
            }
            i = i + 1;
        }
        proof {
            lemma_entries_map_dom(self.entries@, key@);
        }
        None
    }

    /// Whether `key` has an entry.
    pub fn contains_key(&self, key: &str) -> (b: bool)
        ensures
            b == self@.dom().contains(key@),
    {
        proof {
            use_type_invariant(self);
        }
        match self.find_index(key) {
            Some(i) => {
                proof {
                    lemma_entries_map_at(self.entries@, i as int);
                }
                true
            },
            None => false,
        }
    }

    /// The value stored under `key`.
    pub fn get(&self, key: &str) -> (r: Option<&V>)
        ensures
            match r {
                Some(v) => self@.dom().contains(key@) && self@[key@] == v@,
                None => !self@.dom().contains(key@),
            },
    {
        proof {
            use_type_invariant(self);
        }
        match self.find_index(key) {
            Some(i) => {
                proof {
                    lemma_entries_map_at(self.entries@, i as int);
                }
                Some(&self.entries[i].1)
            },
            None => None,
        }
    }

    /// Store `value` under `key`, replacing what was there; a new key goes last.
    pub fn insert(&mut self, key: String, value: V)
        ensures
            final(self)@ == old(self)@.insert(key@, value@),
            old(self)@.dom().contains(key@) ==> final(self).keys() == old(self).keys(),
            !old(self)@.dom().contains(key@) ==> final(self).keys() == old(self).keys().push(key@),
    {
        proof {
            use_type_invariant(&*self);
        }
        let ghost old_entries = self.entries@;
        match self.find_index(key.as_str()) {
            Some(i) => {
                proof {
                    lemma_entries_map_update(old_entries, i as int, (key, value));
                    lemma_entries_map_at(old_entries, i as int);
                }
                let ghost e = (key, value);
                let mut entries: Vec<(String, V)> = Vec::new();
                std::mem::swap(&mut entries, &mut self.entries);
                entries.set(i, (key, value));
                assert(entries@ == old_entries.update(i as int, e));
                assert(entry_keys(entries@) =~= entry_keys(old_entries));
                self.entries = entries;
            },
            None => {
                proof {
                    lemma_entries_map_dom(old_entries, key@);
                }
                let ghost e = (key, value);
                let mut entries: Vec<(String, V)> = Vec::new();
                std::mem::swap(&mut entries, &mut self.entries);
                entries.push((key, value));
                assert(entries@.drop_last() =~= old_entries);
                assert(entry_keys(entries@) =~= entry_keys(old_entries).push(key@));
                self.entries = entries;
            },
        }
    }
}

} // verus!
