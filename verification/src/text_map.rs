use vstd::prelude::*;

verus! {

/// Whether no text occurs twice in `keys`.
pub open spec fn distinct(keys: Seq<Seq<char>>) -> bool {
    forall|i: int, j: int|
        0 <= i < keys.len() && 0 <= j < keys.len() && i != j ==> #[trigger] keys[i]
            != #[trigger] keys[j]
}

/// The place of `key` in `keys`.
pub open spec fn place_of(keys: Seq<Seq<char>>, key: Seq<char>) -> int {
    choose|i: int| 0 <= i < keys.len() && keys[i] == key
}

/// The map that takes each of `keys` to the value at its place.
pub open spec fn as_map<V>(keys: Seq<Seq<char>>, values: Seq<V>) -> Map<Seq<char>, V> {
    Map::new(|key: Seq<char>| keys.contains(key), |key: Seq<char>| values[place_of(keys, key)])
}

/// Each key leads to the value at its place.
pub proof fn lemma_as_map_at<V>(keys: Seq<Seq<char>>, values: Seq<V>, i: int)
    requires
        distinct(keys),
        0 <= i < keys.len(),
    ensures
        as_map(keys, values).contains_key(keys[i]),
        as_map(keys, values)[keys[i]] == values[i],
        place_of(keys, keys[i]) == i,
{
    assert(keys.contains(keys[i]));
}

/// A new key at the end adds one entry to the map.
pub proof fn lemma_as_map_push<V>(keys: Seq<Seq<char>>, values: Seq<V>, key: Seq<char>, value: V)
    requires
        distinct(keys),
        keys.len() == values.len(),
        !keys.contains(key),
    ensures
        distinct(keys.push(key)),
        as_map(keys.push(key), values.push(value)) == as_map(keys, values).insert(key, value),
{
    let more = keys.push(key);
    assert forall|i: int, j: int|
        0 <= i < more.len() && 0 <= j < more.len() && i != j implies #[trigger] more[i]
        != #[trigger] more[j] by {
        if i < keys.len() {
            assert(keys.contains(keys[i]));
        }
        if j < keys.len() {
            assert(keys.contains(keys[j]));
        }
    }
    assert forall|k: Seq<char>| more.contains(k) <==> (keys.contains(k) || k == key) by {
        if keys.contains(k) {
            let i = choose|i: int| 0 <= i < keys.len() && keys[i] == k;
            assert(more[i] == k);
        }
        if k == key {
            assert(more[keys.len() as int] == k);
        }
        if more.contains(k) {
            let i = choose|i: int| 0 <= i < more.len() && more[i] == k;
            if i < keys.len() {
                assert(keys[i] == k);
            }
        }
    }
    assert forall|k: Seq<char>| #[trigger] more.contains(k) implies as_map(
        more,
        values.push(value),
    )[k] == as_map(keys, values).insert(key, value)[k] by {
        let i = choose|i: int| 0 <= i < more.len() && more[i] == k;
        lemma_as_map_at(more, values.push(value), i);
        if i < keys.len() {
            lemma_as_map_at(keys, values, i);
        }
    }
    assert(as_map(more, values.push(value)) =~= as_map(keys, values).insert(key, value));
}

/// A new value in place changes one entry of the map.
pub proof fn lemma_as_map_update<V>(keys: Seq<Seq<char>>, values: Seq<V>, at: int, value: V)
    requires
        distinct(keys),
        keys.len() == values.len(),
        0 <= at < keys.len(),
    ensures
        as_map(keys, values.update(at, value)) == as_map(keys, values).insert(keys[at], value),
{
    assert(keys.contains(keys[at]));
    assert forall|k: Seq<char>| #[trigger] keys.contains(k) implies as_map(
        keys,
        values.update(at, value),
    )[k] == as_map(keys, values).insert(keys[at], value)[k] by {
        let i = choose|i: int| 0 <= i < keys.len() && keys[i] == k;
        lemma_as_map_at(keys, values.update(at, value), i);
        lemma_as_map_at(keys, values, i);
    }
    assert(as_map(keys, values.update(at, value)) =~= as_map(keys, values).insert(
        keys[at],
        value,
    ));
}

/// Taking out a place takes one entry out of the map.
pub proof fn lemma_as_map_remove<V>(keys: Seq<Seq<char>>, values: Seq<V>, at: int)
    requires
        distinct(keys),
        keys.len() == values.len(),
        0 <= at < keys.len(),
    ensures
        distinct(keys.remove(at)),
        as_map(keys.remove(at), values.remove(at)) == as_map(keys, values).remove(keys[at]),
{
    let fewer = keys.remove(at);
    let rest = values.remove(at);
    assert forall|i: int, j: int|
        0 <= i < fewer.len() && 0 <= j < fewer.len() && i != j implies #[trigger] fewer[i]
        != #[trigger] fewer[j] by {
        let si = if i < at {
            i
        } else {
            i + 1
        };
        let sj = if j < at {
            j
        } else {
            j + 1
        };
        assert(fewer[i] == keys[si]);
        assert(fewer[j] == keys[sj]);
    }
    assert forall|k: Seq<char>| fewer.contains(k) <==> (keys.contains(k) && k != keys[at]) by {
        if keys.contains(k) && k != keys[at] {
            let i = choose|i: int| 0 <= i < keys.len() && keys[i] == k;
            let j = if i < at {
                i
            } else {
                i - 1
            };
            assert(fewer[j] == k);
        }
        if fewer.contains(k) {
            let i = choose|i: int| 0 <= i < fewer.len() && fewer[i] == k;
            let j = if i < at {
                i
            } else {
                i + 1
            };
            assert(keys[j] == k);
        }
    }
    assert forall|k: Seq<char>| #[trigger] fewer.contains(k) implies as_map(fewer, rest)[k]
        == as_map(keys, values).remove(keys[at])[k] by {
        let i = choose|i: int| 0 <= i < fewer.len() && fewer[i] == k;
        lemma_as_map_at(fewer, rest, i);
        let j = if i < at {
            i
        } else {
            i + 1
        };
        assert(keys[j] == k);
        lemma_as_map_at(keys, values, j);
    }
    assert(as_map(fewer, rest) =~= as_map(keys, values).remove(keys[at]));
}

/// A map from texts to values that keeps its entries in the order in which
/// their keys first came in.
pub struct TextMap<V> {
    keys: Vec<String>,
    values: Vec<V>,
}

impl<V> TextMap<V> {
    /// The keys, in the order in which they came in.
    pub closed spec fn keys(&self) -> Seq<Seq<char>> {
        self.keys@.map_values(|key: String| key@)
    }

    /// The values, each at the place of its key.
    pub closed spec fn values(&self) -> Seq<V> {
        self.values@
    }

    /// Every key has its value, and no key occurs twice.
    pub open spec fn wf(&self) -> bool {
        self.keys().len() == self.values().len() && distinct(self.keys())
    }

    /// The entries as a map.
    pub open spec fn view(&self) -> Map<Seq<char>, V> {
        as_map(self.keys(), self.values())
    }

    pub fn new() -> (map: Self)
        ensures
            map.wf(),
            map.keys() == Seq::<Seq<char>>::empty(),
            map.values() == Seq::<V>::empty(),
            map@ == Map::<Seq<char>, V>::empty(),
    {
        let map = Self { keys: Vec::new(), values: Vec::new() };
        proof {
            assert(map.keys() =~= Seq::<Seq<char>>::empty());
            assert(map@ =~= Map::<Seq<char>, V>::empty());
        }
        map
    }

    /// The number of entries.
    pub fn len(&self) -> (count: usize)
        ensures
            count == self.keys().len(),
    {
        self.keys.len()
    }

    /// The place of `key`, if it is a key.
    pub fn find(&self, key: &String) -> (found: Option<usize>)
        ensures
            match found {
                Some(i) => i < self.keys().len() && self.keys()[i as int] == key@,
                None => !self.keys().contains(key@),
            },
    {
        let mut i: usize = 0;
        while i < self.keys.len()
            invariant
                i <= self.keys@.len(),
                forall|k: int| 0 <= k < i ==> self.keys@[k]@ != key@,
            decreases self.keys@.len() - i,
        {
            if self.keys[i] == *key {
                return Some(i);
            }
            i += 1;
        }
        proof {
            if self.keys().contains(key@) {
                let k = choose|k: int| 0 <= k < self.keys().len() && self.keys()[k] == key@;
                assert(self.keys@[k]@ == key@);
            }
        }
        None
    }

    pub fn contains_key(&self, key: &str) -> (found: bool)
        ensures
            found == self@.contains_key(key@),
            found == self.keys().contains(key@),
    {
        let owned = key.to_owned();
        match self.find(&owned) {
            Some(i) => {
                proof {
                    assert(self.keys().contains(self.keys()[i as int]));
                }
                true
            },
            None => false,
        }
    }

    /// The key at place `i`.
    pub fn key_at(&self, i: usize) -> (key: &String)
        requires
            i < self.keys().len(),
        ensures
            key@ == self.keys()[i as int],
    {
        &self.keys[i]
    }

    /// The value at place `i`.
    pub fn value_at(&self, i: usize) -> (value: &V)
        requires
            self.wf(),
            i < self.keys().len(),
        ensures
            *value == self.values()[i as int],
    {
        &self.values[i]
    }

    pub fn get(&self, key: &str) -> (value: Option<&V>)
        requires
            self.wf(),
        ensures
            match value {
                Some(v) => self@.contains_key(key@) && *v == self@[key@],
                None => !self@.contains_key(key@),
            },
    {
        let owned = key.to_owned();
        match self.find(&owned) {
            Some(i) => {
                proof {
                    lemma_as_map_at(self.keys(), self.values(), i as int);
                }
                Some(&self.values[i])
            },
            None => None,
        }
    }

    /// A mutable borrow of the value under `key`; what is written through
    /// it is what the map holds under `key` afterwards.
    pub fn get_mut(&mut self, key: &str) -> (value: Option<&mut V>)
        requires
            old(self).wf(),
        ensures
            final(self).wf(),
            final(self).keys() == old(self).keys(),
            match value {
                Some(v) => {
                    &&& old(self)@.contains_key(key@)
                    &&& *v == old(self)@[key@]
                    &&& final(self)@ == old(self)@.insert(key@, *final(v))
                    &&& final(self).values() == old(self).values().update(
                        place_of(old(self).keys(), key@),
                        *final(v),
                    )
                },
                None => !old(self)@.contains_key(key@) && final(self).values() == old(
                    self,
                ).values(),
            },
    {
        let owned = key.to_owned();
        match self.find(&owned) {
            Some(i) => {
                proof {
                    lemma_as_map_at(self.keys(), self.values(), i as int);
                    assert forall|changed: V|
                        as_map(self.keys(), #[trigger] self.values().update(i as int, changed))
                            == as_map(self.keys(), self.values()).insert(key@, changed) by {
                        lemma_as_map_update(self.keys(), self.values(), i as int, changed);
                    }
                }
                Some(&mut self.values[i])
            },
            None => None,
        }
    }

    /// Puts `value` under `key` and hands back what was there. A new key
    /// goes to the end; a known key keeps its place.
    pub fn insert(&mut self, key: String, value: V) -> (replaced: Option<V>)
        requires
            old(self).wf(),
        ensures
            final(self).wf(),
            final(self)@ == old(self)@.insert(key@, value),
            match replaced {
                Some(v) => {
                    &&& old(self)@.contains_key(key@)
                    &&& v == old(self)@[key@]
                    &&& final(self).keys() == old(self).keys()
                    &&& final(self).values() == old(self).values().update(
                        place_of(old(self).keys(), key@),
                        value,
                    )
                },
                None => {
                    &&& !old(self)@.contains_key(key@)
                    &&& final(self).keys() == old(self).keys().push(key@)
                    &&& final(self).values() == old(self).values().push(value)
                },
            },
    {
        match self.find(&key) {
            Some(i) => {
                proof {
                    lemma_as_map_at(self.keys(), self.values(), i as int);
                    lemma_as_map_update(self.keys(), self.values(), i as int, value);
                }
                let mut taken = value;
                std::mem::swap(&mut self.values[i], &mut taken);
                Some(taken)
            },
            None => {
                proof {
                    lemma_as_map_push(self.keys(), self.values(), key@, value);
                }
                let ghost before = self.keys();
                self.keys.push(key);
                self.values.push(value);
                proof {
                    assert(self.keys() =~= before.push(key@));
                }
                None
            },
        }
    }

    /// Takes out the entry of `key` and hands back its value.
    pub fn remove(&mut self, key: &str) -> (removed: Option<V>)
        requires
            old(self).wf(),
        ensures
            final(self).wf(),
            final(self)@ == old(self)@.remove(key@),
            match removed {
                Some(v) => {
                    &&& old(self)@.contains_key(key@)
                    &&& v == old(self)@[key@]
                    &&& final(self).keys() == old(self).keys().remove(
                        place_of(old(self).keys(), key@),
                    )
                    &&& final(self).values() == old(self).values().remove(
                        place_of(old(self).keys(), key@),
                    )
                },
                None => {
                    &&& !old(self)@.contains_key(key@)
                    &&& final(self).keys() == old(self).keys()
                    &&& final(self).values() == old(self).values()
                },
            },
    {
        let owned = key.to_owned();
        match self.find(&owned) {
            Some(i) => {
                proof {
                    lemma_as_map_at(self.keys(), self.values(), i as int);
                    lemma_as_map_remove(self.keys(), self.values(), i as int);
                }
                let ghost before = self.keys();
                self.keys.remove(i);
                let value = self.values.remove(i);
                proof {
                    assert(self.keys() =~= before.remove(i as int));
                }
                Some(value)
            },
            None => {
                proof {
                    assert(self@ =~= old(self)@.remove(key@));
                }
                None
            },
        }
    }
}

} // verus!
