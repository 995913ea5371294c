//! A map from `String` keys to values, kept as a vector of entries with
//! distinct keys. Its model is a `Map` from the keys' character sequences.

use vstd::prelude::*;

verus! {

/// A finite map keyed by strings.
pub struct StrMap<V> {
    entries: Vec<(String, V)>,
    model: Ghost<Map<Seq<char>, V>>,
}

impl<V> View for StrMap<V> {
    type V = Map<Seq<char>, V>;

    closed spec fn view(&self) -> Map<Seq<char>, V> {
        self.model@
    }
}

impl<V> StrMap<V> {
    /// The entries' keys are pairwise distinct and the model maps each key
    /// to the value stored beside it, and holds no other key.
    pub closed spec fn wf(&self) -> bool {
        &&& self.model@.dom().finite()
        &&& forall|i: int, j: int|
            0 <= i < self.entries@.len() && 0 <= j < self.entries@.len() && i != j
                ==> #[trigger] self.entries@[i].0@ != #[trigger] self.entries@[j].0@
        &&& forall|i: int|
            0 <= i < self.entries@.len() ==> {
                &&& self.model@.contains_key(#[trigger] self.entries@[i].0@)
                &&& self.model@[self.entries@[i].0@] == self.entries@[i].1
            }
        &&& forall|k: Seq<char>|
            #[trigger] self.model@.contains_key(k) ==> exists|i: int|
                0 <= i < self.entries@.len() && #[trigger] self.entries@[i].0@ == k
    }

    /// A well-formed map holds finitely many keys.
    pub proof fn lemma_finite(&self)
        requires
            self.wf(),
        ensures
            self@.dom().finite(),
    {
    }

    /// An empty map.
    pub fn new() -> (m: Self)
        ensures
            m.wf(),
            m@ == Map::<Seq<char>, V>::empty(),
    {
        StrMap { entries: Vec::new(), model: Ghost(Map::empty()) }
    }

    /// The position of `key` among the entries, if it is there.
    fn find(&self, key: &String) -> (r: Option<usize>)
        requires
            self.wf(),
        ensures
            match r {
                Some(i) => i < self.entries@.len() && self.entries@[i as int].0@ == key@,
                None => !self@.contains_key(key@),
            },
    {
        let mut i: usize = 0;
        while i < self.entries.len()
            invariant
                self.wf(),
                i <= self.entries@.len(),
                forall|j: int| 0 <= j < i ==> #[trigger] self.entries@[j].0@ != key@,
            decreases self.entries@.len() - i,
        {
            if self.entries[i].0 == *key {
                return Some(i);
            }
            i = i + 1;
        }
        None
    }

    /// Whether `key` has a value.
    pub fn contains_key(&self, key: &String) -> (b: bool)
        requires
            self.wf(),
        ensures
            b == self@.contains_key(key@),
    {
        match self.find(key) {
            Some(i) => {
                assert(self@.contains_key(self.entries@[i as int].0@));
                true
            },
            None => false,
        }
    }

    /// The value of `key`, if it has one.
    pub fn get(&self, key: &String) -> (r: Option<&V>)
        requires
            self.wf(),
        ensures
            match r {
                Some(v) => self@.contains_key(key@) && *v == self@[key@],
                None => !self@.contains_key(key@),
            },
    {
        match self.find(key) {
            Some(i) => {
                assert(self@.contains_key(self.entries@[i as int].0@));
                Some(&self.entries[i].1)
            },
            None => None,
        }
    }

    /// Gives `key` the value `value` and hands back the value it had before.
    pub fn insert(&mut self, key: String, value: V) -> (prev: Option<V>)
        requires
            old(self).wf(),
        ensures
            final(self).wf(),
            final(self)@ == old(self)@.insert(key@, value),
            prev == (if old(self)@.contains_key(key@) {
                Some(old(self)@[key@])
            } else {
                None::<V>
            }),
    {
        let ghost k = key@;
        let ghost new_model = self.model@.insert(k, value);
        match self.find(&key) {
            Some(i) => {
                let ghost before = self.entries@;
                let (_, old_value) = self.entries.remove(i);
                assert(before[i as int].1 == old_value);
                self.entries.push((key, value));
                self.model = Ghost(new_model);
                proof {
                    let after = self.entries@;
                    assert forall|a: int| 0 <= a < after.len() - 1 implies
                        #[trigger] after[a] == before[if a < i { a } else { a + 1 }] by {}
                    assert forall|a: int, b: int|
                        0 <= a < after.len() && 0 <= b < after.len() && a != b
                        implies #[trigger] after[a].0@ != #[trigger] after[b].0@ by {
                        if a < after.len() - 1 && b < after.len() - 1 {
                            let a2 = if a < i { a } else { a + 1 };
                            let b2 = if b < i { b } else { b + 1 };
                            assert(after[a] == before[a2]);
                            assert(after[b] == before[b2]);
                            assert(before[a2].0@ != before[b2].0@);
                        } else if a < after.len() - 1 {
                            let a2 = if a < i { a } else { a + 1 };
                            assert(after[a] == before[a2]);
                            assert(before[a2].0@ != before[i as int].0@);
                        } else {
                            let b2 = if b < i { b } else { b + 1 };
                            assert(after[b] == before[b2]);
                            assert(before[b2].0@ != before[i as int].0@);
                        }
                    }
                    assert forall|a: int| 0 <= a < after.len() implies {
                        &&& self.model@.contains_key(#[trigger] after[a].0@)
                        &&& self.model@[after[a].0@] == after[a].1
                    } by {
                        if a < after.len() - 1 {
                            let a2 = if a < i { a } else { a + 1 };
                            assert(after[a] == before[a2]);
                            assert(before[a2].0@ != before[i as int].0@);
                        }
                    }
                    assert forall|kk: Seq<char>| #[trigger] self.model@.contains_key(kk) implies
                        exists|a: int| 0 <= a < after.len() && #[trigger] after[a].0@ == kk by {
                        if kk == k {
                            assert(after[after.len() - 1].0@ == kk);
                        } else {
                            let b = choose|b: int| 0 <= b < before.len() && #[trigger] before[b].0@ == kk;
                            assert(b != i);
                            let a = if b < i { b } else { b - 1 };
                            assert(after[a] == before[b]);
                        }
                    }
                }
                Some(old_value)
            },
            None => {
                let ghost before = self.entries@;
                self.entries.push((key, value));
                self.model = Ghost(new_model);
                proof {
                    let after = self.entries@;
                    assert forall|a: int| 0 <= a < before.len() implies
                        #[trigger] after[a] == before[a] by {}
                    assert forall|a: int, b: int|
                        0 <= a < after.len() && 0 <= b < after.len() && a != b
                        implies #[trigger] after[a].0@ != #[trigger] after[b].0@ by {
                        if a < before.len() && b < before.len() {
                        } else if a < before.len() {
                            assert(old(self)@.contains_key(before[a].0@));
                        } else {
                            assert(old(self)@.contains_key(before[b].0@));
                        }
                    }
                    assert forall|a: int| 0 <= a < after.len() implies {
                        &&& self.model@.contains_key(#[trigger] after[a].0@)
                        &&& self.model@[after[a].0@] == after[a].1
                    } by {
                        if a < before.len() {
                            assert(old(self)@.contains_key(before[a].0@));
                        }
                    }
                    assert forall|kk: Seq<char>| #[trigger] self.model@.contains_key(kk) implies
                        exists|a: int| 0 <= a < after.len() && #[trigger] after[a].0@ == kk by {
                        if kk == k {
                            assert(after[before.len() as int].0@ == kk);
                        } else {
                            let b = choose|b: int| 0 <= b < before.len() && #[trigger] before[b].0@ == kk;
                            assert(after[b] == before[b]);
                        }
                    }
                }
                None
            },
        }
    }

    /// Takes `key` out of the map and hands back the value it had.
    pub fn remove(&mut self, key: &String) -> (prev: Option<V>)
        requires
            old(self).wf(),
        ensures
            final(self).wf(),
            final(self)@ == old(self)@.remove(key@),
            prev == (if old(self)@.contains_key(key@) {
                Some(old(self)@[key@])
            } else {
                None::<V>
            }),
    {
        let ghost k = key@;
        match self.find(key) {
            Some(i) => {
                let ghost before = self.entries@;
                let ghost new_model = self.model@.remove(k);
                let (_, old_value) = self.entries.remove(i);
                assert(before[i as int].1 == old_value);
                self.model = Ghost(new_model);
                proof {
                    let after = self.entries@;
                    assert forall|a: int| 0 <= a < after.len() implies
                        #[trigger] after[a] == before[if a < i { a } else { a + 1 }] by {}
                    assert forall|a: int, b: int|
                        0 <= a < after.len() && 0 <= b < after.len() && a != b
                        implies #[trigger] after[a].0@ != #[trigger] after[b].0@ by {
                        let a2 = if a < i { a } else { a + 1 };
                        let b2 = if b < i { b } else { b + 1 };
                        assert(after[a] == before[a2]);
                        assert(after[b] == before[b2]);
                        assert(before[a2].0@ != before[b2].0@);
                    }
                    assert forall|a: int| 0 <= a < after.len() implies {
                        &&& self.model@.contains_key(#[trigger] after[a].0@)
                        &&& self.model@[after[a].0@] == after[a].1
                    } by {
                        let a2 = if a < i { a } else { a + 1 };
                        assert(after[a] == before[a2]);
                        assert(before[a2].0@ != before[i as int].0@);
                    }
                    assert forall|kk: Seq<char>| #[trigger] self.model@.contains_key(kk) implies
                        exists|a: int| 0 <= a < after.len() && #[trigger] after[a].0@ == kk by {
                        let b = choose|b: int| 0 <= b < before.len() && #[trigger] before[b].0@ == kk;
                        assert(b != i);
                        let a = if b < i { b } else { b - 1 };
                        assert(after[a] == before[b]);
                    }
                }
                Some(old_value)
            },
            None => {
                assert(self@.remove(k) =~= self@);
                None
            },
        }
    }
}

} // verus!
