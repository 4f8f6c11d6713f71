//! A small map keyed by strings, kept as a vector of entries whose keys are
//! pairwise distinct; its view is a `Map` from the key text to the value.

use vstd::prelude::*;

verus! {

/// The map that a sequence of entries stands for (a later entry wins).
pub open spec fn entries_map<V>(e: Seq<(String, V)>) -> Map<Seq<char>, V>
    decreases e.len(),
{
    if e.len() == 0 {
        Map::empty()
    } else {
        entries_map(e.drop_last()).insert(e.last().0@, e.last().1)
    }
}

/// No key occurs twice among the entries.
pub open spec fn keys_distinct<V>(e: Seq<(String, V)>) -> bool {
    forall|i: int, j: int| 0 <= i < j < e.len() ==> #[trigger] e[i].0@ != #[trigger] e[j].0@
}

pub proof fn lemma_entries_map_dom<V>(e: Seq<(String, V)>, k: Seq<char>)
    ensures
        entries_map(e).contains_key(k) <==> exists|i: int| 0 <= i < e.len() && #[trigger] e[i].0@ == k,
    decreases e.len(),
{
    if e.len() > 0 {
        lemma_entries_map_dom(e.drop_last(), k);
        if entries_map(e.drop_last()).contains_key(k) {
            let i = choose|i: int| 0 <= i < e.drop_last().len() && #[trigger] e.drop_last()[i].0@ == k;
            assert(e[i].0@ == k);
        }
        if exists|i: int| 0 <= i < e.len() && #[trigger] e[i].0@ == k {
            let i = choose|i: int| 0 <= i < e.len() && #[trigger] e[i].0@ == k;
            if i < e.len() - 1 {
                assert(e.drop_last()[i].0@ == k);
            }
        }
    }
}

pub proof fn lemma_entries_map_index<V>(e: Seq<(String, V)>, i: int)
    requires
        keys_distinct(e),
        0 <= i < e.len(),
    ensures
        entries_map(e).contains_key(e[i].0@),
        entries_map(e)[e[i].0@] == e[i].1,
    decreases e.len(),
{
    if i < e.len() - 1 {
        assert(e.drop_last()[i] == e[i]);
        assert(keys_distinct(e.drop_last()));
        lemma_entries_map_index(e.drop_last(), i);
        assert(e[i].0@ != e.last().0@);
    }
}

/// Two entry sequences with distinct keys and the same entries at each key
/// stand for the same map.
pub proof fn lemma_entries_map_ext<V>(a: Seq<(String, V)>, b: Seq<(String, V)>, m: Map<Seq<char>, V>)
    requires
        keys_distinct(a),
        forall|k: Seq<char>| #[trigger] m.contains_key(k) <==> exists|i: int| 0 <= i < a.len() && #[trigger] a[i].0@ == k,
        forall|i: int| 0 <= i < a.len() ==> m.contains_key(#[trigger] a[i].0@) && m[a[i].0@] == a[i].1,
    ensures
        entries_map(a) == m,
{
    assert forall|k: Seq<char>| #[trigger] entries_map(a).contains_key(k) <==> m.contains_key(k) by {
        lemma_entries_map_dom(a, k);
    }
    assert forall|k: Seq<char>| #[trigger] entries_map(a).contains_key(k) implies entries_map(a)[k] == m[k] by {
        lemma_entries_map_dom(a, k);
        let i = choose|i: int| 0 <= i < a.len() && #[trigger] a[i].0@ == k;
        lemma_entries_map_index(a, i);
    }
    assert(entries_map(a) =~= m);
}

/// A map from strings to values, kept as a vector of entries.
pub struct StrMap<V> {
    pub entries: Vec<(String, V)>,
}

impl<V> View for StrMap<V> {
    type V = Map<Seq<char>, V>;

    open spec fn view(&self) -> Map<Seq<char>, V> {
        entries_map(self.entries@)
    }
}

impl<V> StrMap<V> {
    /// Well-formed: no key occurs twice.
    pub open spec fn wf(&self) -> bool {
        keys_distinct(self.entries@)
    }

    pub fn new() -> (r: Self)
        ensures
            r.wf(),
            r@ == Map::<Seq<char>, V>::empty(),
    {
        StrMap { entries: Vec::new() }
    }

    /// The position of the entry with key `key`, if there is one.
    pub fn find(&self, key: &str) -> (r: Option<usize>)
        ensures
            match r {
                Some(i) => i < self.entries@.len() && self.entries@[i as int].0@ == key@,
                None => !self@.contains_key(key@),
            },
    {
        let k = String::from_str(key);
        let mut i: usize = 0;
        while i < self.entries.len()
            invariant
                i <= self.entries@.len(),
                k@ == key@,
                forall|j: int| 0 <= j < i ==> #[trigger] self.entries@[j].0@ != key@,
            decreases self.entries@.len() - i,
        {
            if self.entries[i].0 == k {
                return Some(i);
            }
            i = i + 1;
        }
        proof {
            lemma_entries_map_dom(self.entries@, key@);
        }
        None
    }

    pub fn contains_key(&self, key: &str) -> (r: bool)
        requires
            self.wf(),
        ensures
            r == self@.contains_key(key@),
    {
        match self.find(key) {
            Some(i) => {
                proof {
                    lemma_entries_map_index(self.entries@, i as int);
                }
                true
            },
            None => false,
        }
    }

    pub fn get(&self, key: &str) -> (r: Option<&V>)
        requires
            self.wf(),
        ensures
            match r {
                Some(v) => self@.contains_key(key@) && self@[key@] == *v,
                None => !self@.contains_key(key@),
            },
    {
        match self.find(key) {
            Some(i) => {
                proof {
                    lemma_entries_map_index(self.entries@, i as int);
                }
                Some(&self.entries[i].1)
            },
            None => None,
        }
    }

    /// Sets the value at `key`, adding the key if it is new.
    pub fn insert(&mut self, key: String, value: V)
        requires
            old(self).wf(),
        ensures
            final(self).wf(),
            final(self)@ == old(self)@.insert(key@, value),
    {
        let ghost k = key@;
        let ghost m = old(self)@.insert(k, value);
        match self.find(key.as_str()) {
            Some(i) => {
                let ghost e0 = self.entries@;
                self.entries.set(i, (key, value));
                proof {
                    let e = self.entries@;
                    assert(keys_distinct(e)) by {
                        assert forall|a: int, b: int| 0 <= a < b < e.len() implies #[trigger] e[a].0@ != #[trigger] e[b].0@ by {
                            assert(e0[a].0@ != e0[b].0@);
                        }
                    }
                    assert forall|kk: Seq<char>| #[trigger] m.contains_key(kk) <==> exists|j: int| 0 <= j < e.len() && #[trigger] e[j].0@ == kk by {
                        lemma_entries_map_dom(e0, kk);
                        if kk == k {
                            assert(e[i as int].0@ == kk);
                        }
                        if m.contains_key(kk) && kk != k {
                            let j = choose|j: int| 0 <= j < e0.len() && #[trigger] e0[j].0@ == kk;
                            assert(e[j].0@ == kk);
                        }
                        if exists|j: int| 0 <= j < e.len() && #[trigger] e[j].0@ == kk {
                            let j = choose|j: int| 0 <= j < e.len() && #[trigger] e[j].0@ == kk;
                            if j != i {
                                assert(e0[j].0@ == kk);
                            }
                        }
                    }
                    assert forall|j: int| 0 <= j < e.len() implies m.contains_key(#[trigger] e[j].0@) && m[e[j].0@] == e[j].1 by {
                        if j != i {
                            lemma_entries_map_index(e0, j);
                            assert(e0[j].0@ != e0[i as int].0@);
                        }
                    }
                    lemma_entries_map_ext(e, e, m);
                }
            },
            None => {
                let ghost e0 = self.entries@;
                self.entries.push((key, value));
                proof {
                    let e = self.entries@;
                    assert(e.drop_last() =~= e0);
                    assert forall|a: int, b: int| 0 <= a < b < e.len() implies #[trigger] e[a].0@ != #[trigger] e[b].0@ by {
                        if b == e.len() - 1 {
                            lemma_entries_map_dom(e0, k);
                            assert(e0[a].0@ == e[a].0@);
                        } else {
                            assert(e0[a].0@ != e0[b].0@);
                        }
                    }
                }
            },
        }
    }

    /// Removes the entry at `key`, handing back its value if there was one.
    pub fn remove(&mut self, key: &str) -> (r: Option<V>)
        requires
            old(self).wf(),
        ensures
            final(self).wf(),
            final(self)@ == old(self)@.remove(key@),
            match r {
                Some(v) => old(self)@.contains_key(key@) && old(self)@[key@] == v,
                None => !old(self)@.contains_key(key@),
            },
    {
        match self.find(key) {
            Some(i) => {
                let ghost e0 = self.entries@;
                let ghost m = old(self)@.remove(key@);
                proof {
                    lemma_entries_map_index(e0, i as int);
                }
                let (_k, v) = self.entries.remove(i);
                proof {
                    let e = self.entries@;
                    assert forall|j: int| 0 <= j < e.len() implies #[trigger] e[j] == (if j < i { e0[j] } else { e0[j + 1] }) by {}
                    assert forall|a: int, b: int| 0 <= a < b < e.len() implies #[trigger] e[a].0@ != #[trigger] e[b].0@ by {
                        let a0 = if a < i { a } else { a + 1 };
                        let b0 = if b < i { b } else { b + 1 };
                        assert(e0[a0].0@ != e0[b0].0@);
                    }
                    assert forall|kk: Seq<char>| #[trigger] m.contains_key(kk) <==> exists|j: int| 0 <= j < e.len() && #[trigger] e[j].0@ == kk by {
                        lemma_entries_map_dom(e0, kk);
                        if m.contains_key(kk) {
                            let j0 = choose|j: int| 0 <= j < e0.len() && #[trigger] e0[j].0@ == kk;
                            assert(j0 != i);
                            let j = if j0 < i { j0 } else { j0 - 1 };
                            assert(e[j].0@ == kk);
                        }
                        if exists|j: int| 0 <= j < e.len() && #[trigger] e[j].0@ == kk {
                            let j = choose|j: int| 0 <= j < e.len() && #[trigger] e[j].0@ == kk;
                            let j0 = if j < i { j } else { j + 1 };
                            assert(e0[j0].0@ == kk);
                            assert(e0[j0].0@ != e0[i as int].0@);
                        }
                    }
                    assert forall|j: int| 0 <= j < e.len() implies m.contains_key(#[trigger] e[j].0@) && m[e[j].0@] == e[j].1 by {
                        let j0 = if j < i { j } else { j + 1 };
                        lemma_entries_map_index(e0, j0);
                        assert(e0[j0].0@ != e0[i as int].0@);
                    }
                    lemma_entries_map_ext(e, e, m);
                }
                Some(v)
            },
            None => {
                proof {
                    assert(old(self)@.remove(key@) =~= old(self)@);
                }
                None
            },
        }
    }

    /// Removes every entry.
    pub fn clear(&mut self)
        ensures
            final(self).wf(),
            final(self)@ == Map::<Seq<char>, V>::empty(),
    {
        self.entries.clear();
    }
}

} // verus!
