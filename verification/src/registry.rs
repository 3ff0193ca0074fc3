//! A small map from strings to values, held as a list of entries.
//!
//! The registries of this library hold a handful of entries each, so a
//! lookup walks the list. No key stands in the list twice.

use vstd::prelude::*;
use vstd::string::*;

verus! {

/// The key of every entry of `entries`, in order.
pub open spec fn keys_of<V>(entries: Seq<(String, V)>) -> Seq<Seq<char>> {
    Seq::new(entries.len(), |i: int| entries[i].0@)
}

/// No key occurs twice.
pub open spec fn distinct(keys: Seq<Seq<char>>) -> bool {
    forall|i: int, j: int| 0 <= i < j < keys.len() ==> keys[i] != keys[j]
}

/// The position of `key` in `keys`, or -1.
pub open spec fn position(keys: Seq<Seq<char>>, key: Seq<char>) -> int
    decreases keys.len(),
{
    if keys.len() == 0 {
        -1
    } else if keys.last() == key {
        keys.len() - 1
    } else {
        position(keys.drop_last(), key)
    }
}

/// The map that a list of entries stands for.
pub open spec fn map_of<V>(entries: Seq<(String, V)>) -> Map<Seq<char>, V> {
    Map::new(
        |k: Seq<char>| position(keys_of(entries), k) >= 0,
        |k: Seq<char>| entries[position(keys_of(entries), k)].1,
    )
}

/// A position that is found holds the key.
pub proof fn lemma_position(keys: Seq<Seq<char>>, key: Seq<char>)
    ensures
        -1 <= position(keys, key) < keys.len(),
        position(keys, key) >= 0 ==> keys[position(keys, key)] == key,
        position(keys, key) < 0 ==> forall|i: int| 0 <= i < keys.len() ==> keys[i] != key,
    decreases keys.len(),
{
    if keys.len() > 0 && keys.last() != key {
        lemma_position(keys.drop_last(), key);
        if position(keys, key) < 0 {
            assert forall|i: int| 0 <= i < keys.len() implies keys[i] != key by {
                if i < keys.len() - 1 {
                    assert(keys.drop_last()[i] == keys[i]);
                }
            }
        }
    }
}

/// Among distinct keys each is found where it stands.
pub proof fn lemma_position_distinct(keys: Seq<Seq<char>>, i: int)
    requires
        distinct(keys),
        0 <= i < keys.len(),
    ensures
        position(keys, keys[i]) == i,
{
    lemma_position(keys, keys[i]);
}

/// A map from strings to values of type `V`.
pub struct Registry<V> {
    entries: Vec<(String, V)>,
}

impl<V> View for Registry<V> {
    type V = Map<Seq<char>, V>;

    closed spec fn view(&self) -> Map<Seq<char>, V> {
        map_of(self.entries@)
    }
}

impl<V> Registry<V> {
    #[verifier::type_invariant]
    spec fn inv(&self) -> bool {
        distinct(keys_of(self.entries@))
    }

    /// Number of entries.
    pub closed spec fn size(&self) -> nat {
        self.entries@.len()
    }

    /// An empty registry.
    pub fn new() -> (r: Self)
        ensures
            r@ == Map::<Seq<char>, V>::empty(),
            r.size() == 0,
    {
        let r = Registry { entries: Vec::new() };
        assert(r@ =~= Map::<Seq<char>, V>::empty());
        r
    }

    /// Number of entries.
    pub fn len(&self) -> (n: usize)
        ensures
            n == self.size(),
    {
        self.entries.len()
    }

    /// An empty registry has an empty map.
    pub proof fn lemma_size(&self)
        ensures
            self.size() == 0 <==> self@ == Map::<Seq<char>, V>::empty(),
    {
        let keys = keys_of(self.entries@);
        if self.entries@.len() == 0 {
            assert(self@ =~= Map::<Seq<char>, V>::empty());
        } else {
            assert(position(keys, keys.last()) >= 0);
            assert(self@.contains_key(keys.last()));
        }
    }

    /// Where `key` stands in the list.
    fn find(&self, key: &str) -> (r: Option<usize>)
        ensures
            match r {
                Some(i) => i < self.entries@.len() && position(keys_of(self.entries@), key@) == i,
                None => position(keys_of(self.entries@), key@) < 0,
            },
    {
        proof {
            use_type_invariant(self);
        }
        let wanted = key.to_owned();
        let ghost keys = keys_of(self.entries@);
        let mut i: usize = 0;
        while i < self.entries.len()
            invariant
                i <= self.entries@.len(),
                wanted@ == key@,
                keys == keys_of(self.entries@),
                distinct(keys),
                forall|j: int| 0 <= j < i ==> keys[j] != key@,
            decreases self.entries.len() - i,
        {
            if self.entries[i].0 == wanted {
                proof {
                    lemma_position_distinct(keys, i as int);
                }
                return Some(i);
            }
            i = i + 1;
        }
        proof {
            lemma_position(keys, key@);
        }
        None
    }

    /// Whether `key` has an entry.
    pub fn contains_key(&self, key: &str) -> (r: bool)
        ensures
            r == self@.contains_key(key@),
    {
        self.find(key).is_some()
    }

    /// The value of `key`, if it has one.
    pub fn get(&self, key: &str) -> (r: Option<&V>)
        ensures
            match r {
                Some(v) => self@.contains_key(key@) && *v == self@[key@],
                None => !self@.contains_key(key@),
            },
    {
        match self.find(key) {
            Some(i) => Some(&self.entries[i].1),
            None => None,
        }
    }

    /// Gives `key` the value `value`, in place of the one it had, if any.
    pub fn insert(&mut self, key: String, value: V)
        ensures
            final(self)@ == old(self)@.insert(key@, value),
    {
        proof {
            use_type_invariant(&*self);
        }
        let ghost before = self.entries@;
        let ghost keys = keys_of(before);
        match self.find(key.as_str()) {
            Some(i) => {
                let mut entries = Vec::new();
                core::mem::swap(&mut entries, &mut self.entries);
                entries[i].1 = value;
                proof {
                    lemma_position(keys, key@);
                    assert(keys_of(entries@) =~= keys);
                    assert forall|k: Seq<char>| #[trigger]
                        map_of(entries@).contains_key(k) && k != key@ implies map_of(entries@)[k]
                        == map_of(before)[k] by {
                        lemma_position(keys, k);
                    }
                    assert(map_of(entries@) =~= map_of(before).insert(key@, value));
                }
                self.entries = entries;
            },
            None => {
                let mut entries = Vec::new();
                core::mem::swap(&mut entries, &mut self.entries);
                entries.push((key, value));
                proof {
                    let after = entries@;
                    let keys2 = keys_of(after);
                    assert(keys2.drop_last() =~= keys);
                    lemma_position(keys, key@);
                    assert forall|a: int, b: int| 0 <= a < b < keys2.len() implies keys2[a]
                        != keys2[b] by {
                        assert(keys2[a] == keys[a]);
                        if b < keys.len() {
                            assert(keys2[b] == keys[b]);
                        }
                    }
                    assert forall|k: Seq<char>| k != key@ implies position(keys2, k) == position(
                        keys,
                        k,
                    ) by {}
                    assert forall|k: Seq<char>| #[trigger]
                        map_of(after).contains_key(k) && k != key@ implies map_of(after)[k]
                        == map_of(before)[k] by {
                        lemma_position(keys, k);
                    }
                    assert(map_of(after) =~= map_of(before).insert(key@, value));
                }
                self.entries = entries;
            },
        }
    }

    /// Takes the entry of `key` out, if it has one.
    pub fn remove(&mut self, key: &str) -> (r: Option<V>)
        ensures
            final(self)@ == old(self)@.remove(key@),
            match r {
                Some(v) => old(self)@.contains_key(key@) && v == old(self)@[key@],
                None => !old(self)@.contains_key(key@),
            },
    {
        proof {
            use_type_invariant(&*self);
        }
        let ghost before = self.entries@;
        let ghost keys = keys_of(before);
        match self.find(key) {
            Some(i) => {
                let mut entries = Vec::new();
                core::mem::swap(&mut entries, &mut self.entries);
                let entry = entries.swap_remove(i);
                proof {
                    lemma_position(keys, key@);
                    lemma_swap_remove(before, i as int);
                }
                self.entries = entries;
                Some(entry.1)
            },
            None => {
                assert(self@ =~= map_of(before).remove(key@));
                None
            },
        }
    }

    /// Takes some entry out, if there is any.
    pub fn pop(&mut self) -> (r: Option<(String, V)>)
        ensures
            match r {
                Some((k, v)) => old(self)@.contains_key(k@) && v == old(self)@[k@] && final(self)@
                    == old(self)@.remove(k@) && final(self).size() + 1 == old(self).size(),
                None => old(self).size() == 0 && final(self)@ == old(self)@ && final(self).size()
                    == 0,
            },
    {
        proof {
            use_type_invariant(&*self);
        }
        let ghost before = self.entries@;
        let n = self.entries.len();
        if n == 0 {
            return None;
        }
        let mut entries = Vec::new();
        core::mem::swap(&mut entries, &mut self.entries);
        let entry = entries.swap_remove(n - 1);
        proof {
            lemma_swap_remove(before, n - 1);
            lemma_position_distinct(keys_of(before), n - 1);
        }
        self.entries = entries;
        Some(entry)
    }
}

/// `list` holds every entry of `map` once, in some order.
pub open spec fn lists<V>(list: Seq<(String, V)>, map: Map<Seq<char>, V>) -> bool {
    &&& distinct(keys_of(list))
    &&& forall|i: int|
        0 <= i < list.len() ==> map.contains_key((#[trigger] list[i]).0@) && map[list[i].0@]
            == list[i].1
    &&& forall|k: Seq<char>| #[trigger]
        map.contains_key(k) ==> exists|i: int| 0 <= i < list.len() && (#[trigger] list[i]).0@ == k
}

impl<V: Copy> Registry<V> {
    /// Every entry, once, in some order.
    pub fn snapshot(&self) -> (list: Vec<(String, V)>)
        ensures
            lists(list@, self@),
            list@.len() == self.size(),
    {
        proof {
            use_type_invariant(self);
        }
        let ghost keys = keys_of(self.entries@);
        let mut list: Vec<(String, V)> = Vec::new();
        let mut i: usize = 0;
        while i < self.entries.len()
            invariant
                i <= self.entries@.len(),
                list@.len() == i,
                forall|j: int|
                    0 <= j < i ==> (#[trigger] list@[j]).0@ == self.entries@[j].0@ && list@[j].1
                        == self.entries@[j].1,
            decreases self.entries.len() - i,
        {
            let entry = &self.entries[i];
            list.push((entry.0.clone(), entry.1));
            i = i + 1;
        }
        proof {
            assert(keys_of(list@) =~= keys);
            assert forall|j: int| 0 <= j < list@.len() implies self@.contains_key(
                (#[trigger] list@[j]).0@,
            ) && self@[list@[j].0@] == list@[j].1 by {
                lemma_position_distinct(keys, j);
            }
            assert forall|k: Seq<char>| #[trigger] self@.contains_key(k) implies exists|j: int|
                0 <= j < list@.len() && (#[trigger] list@[j]).0@ == k by {
                lemma_position(keys, k);
                let p = position(keys, k);
                assert(list@[p].0@ == k);
            }
        }
        list
    }
}

/// Taking the entry at `i` out, the last entry moving to its place, removes
/// its key from the map and leaves the keys distinct.
proof fn lemma_swap_remove<V>(before: Seq<(String, V)>, i: int)
    requires
        distinct(keys_of(before)),
        0 <= i < before.len(),
    ensures
        distinct(keys_of(before.update(i, before.last()).drop_last())),
        map_of(before.update(i, before.last()).drop_last()) == map_of(before).remove(
            before[i].0@,
        ),
{
    let after = before.update(i, before.last()).drop_last();
    let keys = keys_of(before);
    let keys2 = keys_of(after);
    let gone = before[i].0@;
    let n = before.len() as int;
    assert forall|a: int, b: int| 0 <= a < b < keys2.len() implies keys2[a] != keys2[b] by {
        let a0 = if a == i {
            n - 1
        } else {
            a
        };
        let b0 = if b == i {
            n - 1
        } else {
            b
        };
        assert(keys2[a] == keys[a0]);
        assert(keys2[b] == keys[b0]);
    }
    assert forall|k: Seq<char>|
        map_of(after).contains_key(k) <==> #[trigger] map_of(before).remove(gone).contains_key(
            k,
        ) by {
        lemma_position(keys, k);
        lemma_position(keys2, k);
        let p = position(keys, k);
        let q = position(keys2, k);
        if q >= 0 {
            let q0 = if q == i {
                n - 1
            } else {
                q
            };
            assert(keys2[q] == keys[q0]);
            assert(keys[i] == gone);
        }
        if p >= 0 && k != gone {
            let p2 = if p == n - 1 {
                i
            } else {
                p
            };
            assert(keys2[p2] == k);
        }
    }
    assert forall|k: Seq<char>| #[trigger]
        map_of(after).contains_key(k) implies map_of(after)[k] == map_of(before).remove(gone)[k] by {
        lemma_position(keys, k);
        lemma_position(keys2, k);
        let q = position(keys2, k);
        let q0 = if q == i {
            n - 1
        } else {
            q
        };
        assert(0 <= q < n - 1);
        assert(q0 != i);
        assert(keys2[q] == keys[q0]);
        assert(after[q] == before[q0]);
        assert(keys[i] == gone);
        lemma_position_distinct(keys, q0);
        assert(k != gone);
    }
    assert(map_of(after) =~= map_of(before).remove(gone));
}

} // verus!
