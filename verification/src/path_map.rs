//! A map from paths to values that keeps the order in which the paths came.

use vstd::prelude::*;

use crate::utils::str_equal;

verus! {

/// A finite map keyed by path. No path occurs twice, and the paths keep the
/// order in which they were first inserted.
#[derive(Debug)]
pub struct PathMap<V> {
    keys: Vec<String>,
    values: Vec<V>,
}

impl<V> PathMap<V> {
    /// The paths of the map, in the order of their insertion.
    pub closed spec fn paths(&self) -> Seq<Seq<char>> {
        Seq::new(self.keys@.len(), |i: int| self.keys@[i]@)
    }

    /// The values of the map, each at the position of its path.
    pub closed spec fn values(&self) -> Seq<V> {
        self.values@
    }

    /// Every path has one value, and no path occurs twice.
    pub closed spec fn well_formed(&self) -> bool {
        &&& self.keys@.len() == self.values@.len()
        &&& self.paths().no_duplicates()
    }

    /// The map as a mathematical one.
    pub open spec fn view(&self) -> Map<Seq<char>, V> {
        Map::new(
            |k: Seq<char>| self.paths().contains(k),
            |k: Seq<char>| self.values()[self.paths().index_of(k)],
        )
    }

    /// The paths and the values have the same length, and each path maps
    /// to the value at its position.
    pub proof fn lemma_entries(&self)
        requires
            self.well_formed(),
        ensures
            self.paths().len() == self.values().len(),
            forall|i: int|
                0 <= i < self.paths().len() ==> self.view().contains_key(#[trigger] self.paths()[i])
                    && self.view()[self.paths()[i]] == self.values()[i],
            forall|k: Seq<char>| self.view().contains_key(k) <==> self.paths().contains(k),
    {
        assert forall|i: int| 0 <= i < self.paths().len() implies self.view().contains_key(
            #[trigger] self.paths()[i],
        ) && self.view()[self.paths()[i]] == self.values()[i] by {
            let k = self.paths()[i];
            assert(self.paths().contains(k));
            let j = self.paths().index_of(k);
            assert(0 <= j < self.paths().len() && self.paths()[j] == k);
        }
    }

    /// The empty map.
    pub fn new() -> (map: Self)
        ensures
            map.well_formed(),
            map.paths().len() == 0,
            map.view() == Map::<Seq<char>, V>::empty(),
    {
        let map = PathMap { keys: Vec::new(), values: Vec::new() };
        assert(map.view() =~= Map::<Seq<char>, V>::empty());
        map
    }

    /// The number of paths.
    pub fn len(&self) -> (n: usize)
        requires
            self.well_formed(),
        ensures
            n == self.paths().len(),
            n == self.values().len(),
    {
        self.keys.len()
    }

    /// The position of `path`, if the map has it.
    pub fn position(&self, path: &str) -> (found: Option<usize>)
        requires
            self.well_formed(),
        ensures
            match found {
                Some(i) => i < self.paths().len() && self.paths()[i as int] == path@,
                None => !self.paths().contains(path@),
            },
    {
        let mut i: usize = 0;
        while i < self.keys.len()
            invariant
                i <= self.keys@.len(),
                self.paths().len() == self.keys@.len(),
                forall|j: int| 0 <= j < i ==> self.paths()[j] != path@,
            decreases self.keys@.len() - i,
        {
            if str_equal(self.keys[i].as_str(), path) {
                return Some(i);
            }
            i += 1;
        }
        None
    }

    /// Whether the map has `path`.
    pub fn contains_key(&self, path: &str) -> (yes: bool)
        requires
            self.well_formed(),
        ensures
            yes == self.view().contains_key(path@),
    {
        self.position(path).is_some()
    }

    /// The value of `path`, if the map has it.
    pub fn get(&self, path: &str) -> (found: Option<&V>)
        requires
            self.well_formed(),
        ensures
            match found {
                Some(value) => self.view().contains_key(path@) && *value == self.view()[path@],
                None => !self.view().contains_key(path@),
            },
    {
        proof {
            self.lemma_entries();
        }
        match self.position(path) {
            Some(i) => Some(&self.values[i]),
            None => None,
        }
    }

    /// The `i`-th path, in the order of insertion.
    pub fn path_at(&self, i: usize) -> (path: &String)
        requires
            self.well_formed(),
            i < self.paths().len(),
        ensures
            path@ == self.paths()[i as int],
    {
        &self.keys[i]
    }

    /// The value of the `i`-th path.
    pub fn value_at(&self, i: usize) -> (value: &V)
        requires
            self.well_formed(),
            i < self.paths().len(),
        ensures
            *value == self.values()[i as int],
            *value == self.view()[self.paths()[i as int]],
    {
        proof {
            self.lemma_entries();
        }
        &self.values[i]
    }

    /// Gives the `i`-th path a new value.
    pub fn set_value_at(&mut self, i: usize, value: V)
        requires
            old(self).well_formed(),
            i < old(self).paths().len(),
        ensures
            final(self).well_formed(),
            final(self).paths() == old(self).paths(),
            final(self).values() == old(self).values().update(i as int, value),
            final(self).view() == old(self).view().insert(old(self).paths()[i as int], value),
    {
        let ghost before = *self;
        self.values.set(i, value);
        proof {
            assert(self.paths() =~= before.paths());
            before.lemma_entries();
            self.lemma_entries();
            assert(self.view() =~= before.view().insert(before.paths()[i as int], value)) by {
                assert forall|k: Seq<char>| self.view().contains_key(k) implies self.view()[k]
                    == before.view().insert(before.paths()[i as int], value)[k] by {
                    let j = self.paths().index_of(k);
                    assert(self.paths()[j] == k);
                }
            }
        }
    }

    /// Gives the `i`-th path a new value and hands out the old one.
    pub fn replace_value_at(&mut self, i: usize, value: V) -> (before: V)
        requires
            old(self).well_formed(),
            i < old(self).paths().len(),
        ensures
            before == old(self).values()[i as int],
            final(self).well_formed(),
            final(self).paths() == old(self).paths(),
            final(self).values() == old(self).values().update(i as int, value),
            final(self).view() == old(self).view().insert(old(self).paths()[i as int], value),
    {
        let ghost start = *self;
        self.values.push(value);
        let before = self.values.swap_remove(i);
        proof {
            assert(self.values@ =~= start.values@.update(i as int, value));
            assert(self.paths() =~= start.paths());
            start.lemma_entries();
            self.lemma_entries();
            assert(self.view() =~= start.view().insert(start.paths()[i as int], value)) by {
                assert forall|k: Seq<char>| self.view().contains_key(k) implies self.view()[k]
                    == start.view().insert(start.paths()[i as int], value)[k] by {
                    let j = self.paths().index_of(k);
                    assert(self.paths()[j] == k);
                }
            }
        }
        before
    }

    /// Maps `path` to `value`: in place of the value it had, or as a new
    /// last path.
    pub fn insert(&mut self, path: String, value: V)
        requires
            old(self).well_formed(),
        ensures
            final(self).well_formed(),
            final(self).view() == old(self).view().insert(path@, value),
            final(self).paths() == if old(self).paths().contains(path@) {
                old(self).paths()
            } else {
                old(self).paths().push(path@)
            },
            final(self).values() == if old(self).paths().contains(path@) {
                old(self).values().update(old(self).paths().index_of(path@), value)
            } else {
                old(self).values().push(value)
            },
    {
        let ghost before = *self;
        match self.position(path.as_str()) {
            Some(i) => {
                proof {
                    assert(before.paths().contains(path@));
                    let j = before.paths().index_of(path@);
                    assert(before.paths()[j] == path@);
                }
                self.set_value_at(i, value);
            },
            None => {
                self.keys.push(path);
                self.values.push(value);
                proof {
                    assert(self.paths() =~= before.paths().push(path@));
                    assert(self.paths().no_duplicates());
                    before.lemma_entries();
                    self.lemma_entries();
                    assert(self.view() =~= before.view().insert(path@, value)) by {
                        assert forall|k: Seq<char>| self.view().contains_key(k) implies (
                        before.view().insert(path@, value).contains_key(k) && self.view()[k]
                            == before.view().insert(path@, value)[k]) by {
                            let j = self.paths().index_of(k);
                            assert(self.paths()[j] == k);
                            if j < before.paths().len() {
                                assert(before.paths()[j] == k);
                            }
                        }
                        assert forall|k: Seq<char>|
                            before.view().insert(path@, value).contains_key(
                                k,
                            ) implies self.view().contains_key(k) by {
                            if k == path@ {
                                assert(self.paths()[before.paths().len() as int] == k);
                            } else {
                                let j = before.paths().index_of(k);
                                assert(before.paths()[j] == k);
                                assert(self.paths()[j] == k);
                            }
                        }
                    }
                }
            },
        }
    }
}

} // verus!
