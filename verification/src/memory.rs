//! The in-memory store: a map from string keys to string values.

use vstd::prelude::*;
use crate::strmap::StrMap;

verus! {

/// A key/value store held in memory.
pub struct KvStore {
    map: StrMap<String>,
}

impl View for KvStore {
    type V = Map<Seq<char>, Seq<char>>;

    closed spec fn view(&self) -> Map<Seq<char>, Seq<char>> {
        self.map@.map_values(|v: String| v@)
    }
}

impl KvStore {
    /// The map's entries are well formed.
    pub closed spec fn wf(&self) -> bool {
        self.map.wf()
    }

    /// An empty store.
    pub fn new() -> (s: Self)
        ensures
            s.wf(),
            s@ == Map::<Seq<char>, Seq<char>>::empty(),
    {
        let s = KvStore { map: StrMap::new() };
        assert(s@ =~= Map::<Seq<char>, Seq<char>>::empty());
        s
    }

    /// Gives `key` the value `val`.
    pub fn set(&mut self, key: String, val: String)
        requires
            old(self).wf(),
        ensures
            final(self).wf(),
            final(self)@ == old(self)@.insert(key@, val@),
    {
        let ghost k = key@;
        let ghost v = val@;
        self.map.insert(key, val);
        assert(self@ =~= old(self)@.insert(k, v));
    }

    /// The value of `key`, if the store holds one.
    pub fn get(&self, key: String) -> (r: Option<String>)
        requires
            self.wf(),
        ensures
            match r {
                Some(v) => self@.contains_key(key@) && v@ == self@[key@],
                None => !self@.contains_key(key@),
            },
    {
        match self.map.get(&key) {
            Some(v) => Some(v.clone()),
            None => None,
        }
    }

    /// Takes `key` out of the store.
    pub fn remove(&mut self, key: String)
        requires
            old(self).wf(),
        ensures
            final(self).wf(),
            final(self)@ == old(self)@.remove(key@),
    {
        self.map.remove(&key);
        assert(self@ =~= old(self)@.remove(key@));
    }
}

impl Default for KvStore {
    fn default() -> (s: Self)
        ensures
            s.wf(),
            s@ == Map::<Seq<char>, Seq<char>>::empty(),
    {
        KvStore::new()
    }
}

/// A read gives back the value of the last write of the same key.
pub proof fn law_get_after_set(m: Map<Seq<char>, Seq<char>>, key: Seq<char>, val: Seq<char>)
    ensures
        m.insert(key, val).contains_key(key),
        m.insert(key, val)[key] == val,
{
}

/// A write of one key leaves the value of every other key as it was.
pub proof fn law_set_keeps_others(
    m: Map<Seq<char>, Seq<char>>,
    key: Seq<char>,
    val: Seq<char>,
    other: Seq<char>,
)
    requires
        other != key,
    ensures
        m.insert(key, val).contains_key(other) == m.contains_key(other),
        m.contains_key(other) ==> m.insert(key, val)[other] == m[other],
{
}

/// After a key is removed, a read of it finds nothing, and every other key
/// keeps its value.
pub proof fn law_remove(m: Map<Seq<char>, Seq<char>>, key: Seq<char>, other: Seq<char>)
    requires
        other != key,
    ensures
        !m.remove(key).contains_key(key),
        m.remove(key).contains_key(other) == m.contains_key(other),
        m.contains_key(other) ==> m.remove(key)[other] == m[other],
{
}

} // verus!
