//! A small map from strings to values that remembers the order in which its
//! keys were first written.
//!
//! The map is an association list. Writing a key that is already there
//! replaces the value in place, so the later write wins and the key keeps its
//! position.

use vstd::prelude::*;

verus! {

/// What an association list holds under `key`: the value of the last entry
/// with that key.
pub open spec fn assoc<V>(pairs: Seq<(Seq<char>, V)>, key: Seq<char>) -> Option<V>
    decreases pairs.len(),
{
    if pairs.len() == 0 {
        None
    } else if pairs.last().0 == key {
        Some(pairs.last().1)
    } else {
        assoc(pairs.drop_last(), key)
    }
}

/// The map that an association list stands for.
pub open spec fn assoc_map<V>(pairs: Seq<(Seq<char>, V)>) -> Map<Seq<char>, V> {
    Map::new(|k: Seq<char>| assoc(pairs, k) is Some, |k: Seq<char>| assoc(pairs, k)->0)
}

/// An entry is found under a key exactly if some position holds that key.
pub proof fn lemma_assoc_some<V>(pairs: Seq<(Seq<char>, V)>, key: Seq<char>)
    ensures
        assoc(pairs, key) is Some <==> exists|i: int| 0 <= i < pairs.len() && (#[trigger] pairs[i]).0 == key,
    decreases pairs.len(),
{
    if pairs.len() > 0 {
        lemma_assoc_some(pairs.drop_last(), key);
        if pairs.last().0 == key {
            assert(pairs[pairs.len() - 1].0 == key);
        } else if assoc(pairs.drop_last(), key) is Some {
            let i = choose|i: int| 0 <= i < pairs.drop_last().len() && (#[trigger] pairs.drop_last()[i]).0 == key;
            assert(pairs[i].0 == key);
        } else if exists|i: int| 0 <= i < pairs.len() && (#[trigger] pairs[i]).0 == key {
            let i = choose|i: int| 0 <= i < pairs.len() && (#[trigger] pairs[i]).0 == key;
            assert(pairs.drop_last()[i].0 == key);
        }
    }
}

/// Adding an entry at the end writes its key.
pub proof fn lemma_assoc_push<V>(pairs: Seq<(Seq<char>, V)>, key: Seq<char>, value: V)
    ensures
        assoc_map(pairs.push((key, value))) == assoc_map(pairs).insert(key, value),
{
    let after = pairs.push((key, value));
    assert(after.drop_last() == pairs);
    assert(assoc_map(after) =~= assoc_map(pairs).insert(key, value));
}

/// Replacing the value of the last entry with a key writes that key.
pub proof fn lemma_assoc_update<V>(pairs: Seq<(Seq<char>, V)>, i: int, value: V, other: Seq<char>)
    requires
        0 <= i < pairs.len(),
        forall|j: int| i < j < pairs.len() ==> (#[trigger] pairs[j]).0 != pairs[i].0,
    ensures
        assoc(pairs.update(i, (pairs[i].0, value)), other) == if other == pairs[i].0 {
            Some(value)
        } else {
            assoc(pairs, other)
        },
    decreases pairs.len(),
{
    let after = pairs.update(i, (pairs[i].0, value));
    if i == pairs.len() - 1 {
        assert(after.drop_last() == pairs.drop_last());
    } else {
        assert(after.drop_last() == pairs.drop_last().update(i, (pairs[i].0, value)));
        assert(pairs.last() == pairs[pairs.len() - 1]);
        lemma_assoc_update(pairs.drop_last(), i, value, other);
    }
}

/// A map after a sequence of writes, first to last.
pub open spec fn written<V>(base: Map<Seq<char>, V>, pairs: Seq<(Seq<char>, V)>) -> Map<Seq<char>, V>
    decreases pairs.len(),
{
    if pairs.len() == 0 {
        base
    } else {
        written(base, pairs.drop_last()).insert(pairs.last().0, pairs.last().1)
    }
}

/// The last write wins: after a sequence of writes a key holds the value of
/// the last write to it.
pub proof fn lemma_last_write_wins<V>(base: Map<Seq<char>, V>, pairs: Seq<(Seq<char>, V)>, i: int)
    requires
        0 <= i < pairs.len(),
        forall|j: int| i < j < pairs.len() ==> (#[trigger] pairs[j]).0 != pairs[i].0,
    ensures
        written(base, pairs).contains_key(pairs[i].0),
        written(base, pairs)[pairs[i].0] == pairs[i].1,
    decreases pairs.len(),
{
    if i < pairs.len() - 1 {
        assert(pairs.last() == pairs[pairs.len() - 1]);
        assert(pairs.drop_last()[i] == pairs[i]);
        lemma_last_write_wins(base, pairs.drop_last(), i);
    }
}

/// The map of an association list is what its entries write into an empty
/// map.
pub proof fn lemma_assoc_map_written<V>(pairs: Seq<(Seq<char>, V)>)
    ensures
        assoc_map(pairs) == written(Map::empty(), pairs),
    decreases pairs.len(),
{
    if pairs.len() == 0 {
        assert(assoc_map(pairs) =~= Map::<Seq<char>, V>::empty());
    } else {
        lemma_assoc_map_written(pairs.drop_last());
        lemma_assoc_push(pairs.drop_last(), pairs.last().0, pairs.last().1);
        assert(pairs.drop_last().push(pairs.last()) == pairs);
    }
}

/// A map from strings to values, in the order in which the keys were first
/// written.
#[derive(Debug, Clone)]
pub struct Dict<V> {
    entries: Vec<(String, V)>,
}

impl<V: View> Dict<V> {
    /// The entries by their views, oldest key first.
    pub closed spec fn pairs(&self) -> Seq<(Seq<char>, V::V)> {
        self.entries@.map_values(|e: (String, V)| (e.0@, e.1@))
    }

    /// A map without entries.
    pub fn new() -> (r: Self)
        ensures
            r@ == Map::<Seq<char>, V::V>::empty(),
            r.pairs() == Seq::<(Seq<char>, V::V)>::empty(),
    {
        let r = Dict { entries: Vec::new() };
        assert(r.pairs() == Seq::<(Seq<char>, V::V)>::empty());
        assert(r@ =~= Map::<Seq<char>, V::V>::empty());
        r
    }

    /// The position of the entry for `key`, if there is one.
    fn position(&self, key: &str) -> (r: Option<usize>)
        ensures
            match r {
                Some(i) => i < self.pairs().len() && self.pairs()[i as int].0 == key@ && forall|j: int|
                    i < j < self.pairs().len() ==> (#[trigger] self.pairs()[j]).0 != key@,
                None => forall|j: int| 0 <= j < self.pairs().len() ==> (#[trigger] self.pairs()[j]).0 != key@,
            },
    {
        let wanted = String::from_str(key);
        let mut i: usize = self.entries.len();
        while i > 0
            invariant
                i <= self.entries.len(),
                wanted@ == key@,
                self.pairs().len() == self.entries.len(),
                forall|j: int| i <= j < self.pairs().len() ==> (#[trigger] self.pairs()[j]).0 != key@,
            decreases i,
        {
            i -= 1;
            if self.entries[i].0 == wanted {
                return Some(i);
            }
        }
        None
    }

    /// Whether `key` has been written.
    pub fn contains_key(&self, key: &str) -> (r: bool)
        ensures
            r == self@.contains_key(key@),
    {
        let found = self.position(key);
        proof {
            lemma_assoc_some(self.pairs(), key@);
        }
        found.is_some()
    }

    /// The value last written under `key`.
    pub fn get(&self, key: &str) -> (r: Option<&V>)
        ensures
            match r {
                Some(value) => self@.contains_key(key@) && self@[key@] == value@,
                None => !self@.contains_key(key@),
            },
    {
        proof {
            lemma_assoc_some(self.pairs(), key@);
        }
        match self.position(key) {
            Some(i) => {
                proof {
                    lemma_assoc_update(self.pairs(), i as int, self.pairs()[i as int].1, key@);
                    assert(self.pairs().update(i as int, self.pairs()[i as int]) == self.pairs());
                }
                Some(&self.entries[i].1)
            },
            None => None,
        }
    }

    /// Writes `value` under `key`. A key that was written before keeps its
    /// place and takes the new value.
    pub fn insert(&mut self, key: String, value: V)
        ensures
            final(self)@ == old(self)@.insert(key@, value@),
    {
        match self.position(key.as_str()) {
            Some(i) => {
                proof {
                    assert forall|other: Seq<char>|
                        assoc(old(self).pairs().update(i as int, (key@, value@)), other) == if other == key@ {
                            Some(value@)
                        } else {
                            assoc(old(self).pairs(), other)
                        } by {
                        lemma_assoc_update(old(self).pairs(), i as int, value@, other);
                    }
                }
                self.entries.set(i, (key, value));
                assert(self.pairs() == old(self).pairs().update(i as int, (key@, value@)));
                assert(self@ =~= old(self)@.insert(key@, value@));
            },
            None => {
                proof {
                    lemma_assoc_push(self.pairs(), key@, value@);
                }
                self.entries.push((key, value));
                assert(self.pairs() == old(self).pairs().push((key@, value@)));
            },
        }
    }
}

impl<V: View> View for Dict<V> {
    type V = Map<Seq<char>, V::V>;

    open spec fn view(&self) -> Map<Seq<char>, V::V> {
        assoc_map(self.pairs())
    }
}

impl Dict<String> {
    /// A map with the same entries.
    pub fn duplicate(&self) -> (r: Dict<String>)
        ensures
            r@ == self@,
    {
        let mut entries: Vec<(String, String)> = Vec::new();
        let mut i: usize = 0;
        while i < self.entries.len()
            invariant
                i <= self.entries.len(),
                entries@.len() == i,
                forall|j: int| 0 <= j < i ==> (#[trigger] entries@[j]).0@ == self.entries@[j].0@ && entries@[j].1@
                    == self.entries@[j].1@,
            decreases self.entries.len() - i,
        {
            entries.push((self.entries[i].0.clone(), self.entries[i].1.clone()));
            i += 1;
        }
        let r = Dict { entries };
        assert(r.pairs() == self.pairs());
        r
    }
}

} // verus!
