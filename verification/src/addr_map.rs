//! A small map keyed by address hashes.
//!
//! The entries are kept in a list, in the order in which their keys were
//! first inserted, so that a caller can walk them by index. Lookups scan
//! the list; the maps of this crate hold a few hundred entries at most.

use crate::hash::same_hash;
use crate::hash::AddressHash;
use vstd::prelude::*;

verus! {

/// A map from address hashes to values of type `T`.
pub struct AddrMap<T> {
    keys: Vec<AddressHash>,
    values: Vec<T>,
}

impl<T> View for AddrMap<T> {
    type V = Map<AddressHash, T>;

    open spec fn view(&self) -> Map<AddressHash, T> {
        Map::new(
            |k: AddressHash| self.keys().contains(k),
            |k: AddressHash| self.values()[self.keys().index_of(k)],
        )
    }
}

/// In a list without duplicates an element is found where it stands.
pub proof fn lemma_index_of<A>(s: Seq<A>, i: int)
    requires
        s.no_duplicates(),
        0 <= i < s.len(),
    ensures
        s.contains(s[i]),
        s.index_of(s[i]) == i,
{
    let j = s.index_of(s[i]);
    assert(0 <= j < s.len() && s[j] == s[i]);
}

/// The elements of `s` whose mark is not set, in order.
pub open spec fn unmarked<A>(s: Seq<A>, marks: Seq<bool>) -> Seq<A>
    recommends
        s.len() == marks.len(),
    decreases s.len(),
{
    if s.len() == 0 {
        Seq::empty()
    } else if marks[s.len() - 1] {
        unmarked(s.drop_last(), marks.drop_last())
    } else {
        unmarked(s.drop_last(), marks.drop_last()).push(s.last())
    }
}

/// Dropping marked entries keeps exactly the unmarked ones, each key with
/// its value, and introduces no duplicate key.
pub proof fn lemma_unmarked<T>(keys: Seq<AddressHash>, values: Seq<T>, marks: Seq<bool>)
    requires
        keys.len() == values.len(),
        keys.len() == marks.len(),
    ensures
        unmarked(keys, marks).len() == unmarked(values, marks).len(),
        unmarked(keys, marks).len() <= keys.len(),
        forall|a: int|
            #![trigger unmarked(keys, marks)[a]]
            0 <= a < unmarked(keys, marks).len() ==> exists|b: int|
                0 <= b < keys.len() && !marks[b] && #[trigger] keys[b] == unmarked(keys, marks)[a]
                    && values[b] == unmarked(values, marks)[a],
        forall|b: int|
            0 <= b < keys.len() && !marks[b] ==> unmarked(keys, marks).contains(#[trigger] keys[b]),
        keys.no_duplicates() ==> unmarked(keys, marks).no_duplicates(),
    decreases keys.len(),
{
    if keys.len() > 0 {
        let k0 = keys.drop_last();
        let v0 = values.drop_last();
        let m0 = marks.drop_last();
        lemma_unmarked(k0, v0, m0);
        let ok = unmarked(keys, marks);
        let ov = unmarked(values, marks);
        let rk = unmarked(k0, m0);
        let rv = unmarked(v0, m0);
        let n = keys.len() - 1;
        assert forall|a: int| #![trigger ok[a]] 0 <= a < ok.len() implies exists|b: int|
            0 <= b < keys.len() && !marks[b] && #[trigger] keys[b] == ok[a] && values[b]
                == ov[a] by {
            if a < rk.len() {
                let b = choose|b: int|
                    0 <= b < k0.len() && !m0[b] && #[trigger] k0[b] == rk[a] && v0[b] == rv[a];
                assert(keys[b] == ok[a] && values[b] == ov[a] && !marks[b]);
            } else {
                assert(keys[n] == ok[a] && values[n] == ov[a] && !marks[n]);
            }
        }
        assert forall|b: int| 0 <= b < keys.len() && !marks[b] implies ok.contains(
            #[trigger] keys[b],
        ) by {
            if b < n {
                assert(rk.contains(k0[b]));
                let a = choose|a: int| 0 <= a < rk.len() && rk[a] == k0[b];
                assert(ok[a] == keys[b]);
            } else {
                assert(ok[ok.len() - 1] == keys[b]);
            }
        }
        if keys.no_duplicates() {
            assert(k0.no_duplicates()) by {
                assert forall|i: int, j: int|
                    0 <= i < k0.len() && 0 <= j < k0.len() && i != j implies k0[i] != k0[j] by {
                    assert(k0[i] == keys[i] && k0[j] == keys[j]);
                }
            }
            assert forall|i: int, j: int|
                0 <= i < ok.len() && 0 <= j < ok.len() && i != j implies ok[i] != ok[j] by {
                if i < rk.len() && j < rk.len() {
                    assert(ok[i] == rk[i] && ok[j] == rk[j]);
                } else {
                    let a = if i < rk.len() {
                        i
                    } else {
                        j
                    };
                    let b = choose|b: int|
                        0 <= b < k0.len() && !m0[b] && #[trigger] k0[b] == rk[a] && v0[b] == rv[a];
                    assert(keys[b] == rk[a]);
                    assert(keys[n] != keys[b]);
                }
            }
        }
    }
}

/// Sum of the lengths of the lists.
pub open spec fn total_len<T>(lists: Seq<Vec<T>>) -> int
    decreases lists.len(),
{
    if lists.len() == 0 {
        0
    } else {
        total_len(lists.drop_last()) + lists.last()@.len()
    }
}

/// Dropping empty lists does not change the sum of the lengths.
pub proof fn lemma_total_unmarked<T>(lists: Seq<Vec<T>>, marks: Seq<bool>)
    requires
        lists.len() == marks.len(),
        forall|i: int| 0 <= i < lists.len() && marks[i] ==> (#[trigger] lists[i])@.len() == 0,
    ensures
        total_len(unmarked(lists, marks)) == total_len(lists),
    decreases lists.len(),
{
    if lists.len() > 0 {
        lemma_total_unmarked(lists.drop_last(), marks.drop_last());
        let n = lists.len() - 1;
        assert(lists[n] == lists.last());
        if !marks[n] {
            let out = unmarked(lists, marks);
            assert(out.drop_last() =~= unmarked(lists.drop_last(), marks.drop_last()));
        }
    }
}

/// Replacing one list changes the sum by the difference of the lengths.
pub proof fn lemma_total_update<T>(lists: Seq<Vec<T>>, i: int, list: Vec<T>)
    requires
        0 <= i < lists.len(),
    ensures
        total_len(lists.update(i, list)) == total_len(lists) - lists[i]@.len() + list@.len(),
    decreases lists.len(),
{
    let n = lists.len() - 1;
    if i == n {
        assert(lists.update(i, list).drop_last() =~= lists.drop_last());
    } else {
        lemma_total_update(lists.drop_last(), i, list);
        assert(lists.update(i, list).drop_last() =~= lists.drop_last().update(i, list));
    }
}

/// Removing one list lowers the sum by its length.
pub proof fn lemma_total_remove<T>(lists: Seq<Vec<T>>, i: int)
    requires
        0 <= i < lists.len(),
    ensures
        total_len(lists.remove(i)) == total_len(lists) - lists[i]@.len(),
        total_len(lists) >= lists[i]@.len(),
        total_len(lists.remove(i)) >= 0,
    decreases lists.len(),
{
    let n = lists.len() - 1;
    lemma_total_nonnegative(lists.drop_last());
    if i == n {
        assert(lists.remove(i) =~= lists.drop_last());
    } else {
        lemma_total_remove(lists.drop_last(), i);
        assert(lists.remove(i).drop_last() =~= lists.drop_last().remove(i));
        assert(lists.remove(i).last() == lists.last());
    }
}

/// The sum of the lengths is not negative.
pub proof fn lemma_total_nonnegative<T>(lists: Seq<Vec<T>>)
    ensures
        total_len(lists) >= 0,
    decreases lists.len(),
{
    if lists.len() > 0 {
        lemma_total_nonnegative(lists.drop_last());
    }
}

impl<T> AddrMap<T> {
    /// The keys, in the order of their first insertion.
    pub closed spec fn keys(&self) -> Seq<AddressHash> {
        self.keys@
    }

    /// The values, each at the index of its key.
    pub closed spec fn values(&self) -> Seq<T> {
        self.values@
    }

    /// Every key has a value and no key occurs twice.
    pub open spec fn wf(&self) -> bool {
        &&& self.keys().len() == self.values().len()
        &&& self.keys().no_duplicates()
    }

    /// The map holds exactly the listed entries.
    pub proof fn lemma_view(&self)
        requires
            self.wf(),
        ensures
            self@.dom().finite(),
            self@.dom().len() == self.keys().len(),
            forall|k: AddressHash| #[trigger] self@.contains_key(k) <==> self.keys().contains(k),
            forall|i: int|
                0 <= i < self.keys().len() ==> self@.contains_key(#[trigger] self.keys()[i])
                    && self@[self.keys()[i]] == self.values()[i],
    {
        assert(self@.dom() =~= self.keys().to_set());
        self.keys().unique_seq_to_set();
        vstd::seq_lib::seq_to_set_is_finite(self.keys());
        assert forall|i: int| 0 <= i < self.keys().len() implies self@.contains_key(
            #[trigger] self.keys()[i],
        ) && self@[self.keys()[i]] == self.values()[i] by {
            lemma_index_of(self.keys(), i);
        }
    }

    /// An empty map.
    pub fn new() -> (m: Self)
        ensures
            m.wf(),
            m.keys() == Seq::<AddressHash>::empty(),
            m.values() == Seq::<T>::empty(),
            m@ == Map::<AddressHash, T>::empty(),
    {
        let m = AddrMap { keys: Vec::new(), values: Vec::new() };
        assert(m@ =~= Map::<AddressHash, T>::empty());
        m
    }

    /// Number of entries.
    pub fn len(&self) -> (n: usize)
        requires
            self.wf(),
        ensures
            n == self.keys().len(),
            n == self@.dom().len(),
    {
        proof {
            self.lemma_view();
        }
        self.keys.len()
    }

    /// Whether the map has no entry.
    pub fn is_empty(&self) -> (r: bool)
        requires
            self.wf(),
        ensures
            r == (self.keys().len() == 0),
            r == (self@.dom().len() == 0),
    {
        proof {
            self.lemma_view();
        }
        self.keys.len() == 0
    }

    /// Index of the entry with the given key.
    pub fn position(&self, key: &AddressHash) -> (r: Option<usize>)
        requires
            self.wf(),
        ensures
            r is Some <==> self@.contains_key(*key),
            r is Some ==> r->Some_0 < self.keys().len() && self.keys()[r->Some_0 as int] == *key
                && self@[*key] == self.values()[r->Some_0 as int],
            r is None ==> !self.keys().contains(*key),
    {
        let mut i: usize = 0;
        while i < self.keys.len()
            invariant
                self.wf(),
                0 <= i <= self.keys@.len(),
                forall|j: int| 0 <= j < i ==> self.keys@[j] != *key,
            decreases self.keys@.len() - i,
        {
            if same_hash(&self.keys[i], key) {
                proof {
                    lemma_index_of(self.keys(), i as int);
                }
                return Some(i);
            }
            i += 1;
        }
        None
    }

    /// Whether the key has an entry.
    pub fn contains_key(&self, key: &AddressHash) -> (r: bool)
        requires
            self.wf(),
        ensures
            r == self@.contains_key(*key),
    {
        self.position(key).is_some()
    }

    /// The value of the key, if it has one.
    pub fn get(&self, key: &AddressHash) -> (r: Option<&T>)
        requires
            self.wf(),
        ensures
            r is Some <==> self@.contains_key(*key),
            r is Some ==> *r->Some_0 == self@[*key],
    {
        match self.position(key) {
            Some(i) => Some(&self.values[i]),
            None => None,
        }
    }

    /// The key at index `i`.
    pub fn key_at(&self, i: usize) -> (k: AddressHash)
        requires
            self.wf(),
            i < self.keys().len(),
        ensures
            k == self.keys()[i as int],
            self@.contains_key(k),
    {
        proof {
            lemma_index_of(self.keys(), i as int);
        }
        self.keys[i]
    }

    /// The value at index `i`.
    pub fn value_at(&self, i: usize) -> (v: &T)
        requires
            self.wf(),
            i < self.keys().len(),
        ensures
            *v == self.values()[i as int],
            *v == self@[self.keys()[i as int]],
    {
        proof {
            lemma_index_of(self.keys(), i as int);
        }
        &self.values[i]
    }

    /// Replaces the value at index `i` and returns the old one.
    pub fn set_at(&mut self, i: usize, value: T) -> (previous: T)
        requires
            old(self).wf(),
            i < old(self).keys().len(),
        ensures
            final(self).wf(),
            final(self).keys() == old(self).keys(),
            final(self).values() == old(self).values().update(i as int, value),
            final(self)@ == old(self)@.insert(old(self).keys()[i as int], value),
            previous == old(self).values()[i as int],
    {
        self.values.push(value);
        let previous = self.values.swap_remove(i);
        proof {
            assert(self.values@ =~= old(self).values@.update(i as int, value));
            assert forall|k: AddressHash| #[trigger] self@.contains_key(k) implies self@[k] == old(self)@.insert(old(self).keys()[i as int], value)[k] by {
                let j = self.keys().index_of(k);
                lemma_index_of(self.keys(), i as int);
            }
            assert(self@ =~= old(self)@.insert(old(self).keys()[i as int], value)) by {
                lemma_index_of(self.keys(), i as int);
            }
        }
        previous
    }

    /// Appends an entry for a key that has none.
    pub fn push(&mut self, key: AddressHash, value: T)
        requires
            old(self).wf(),
            !old(self)@.contains_key(key),
        ensures
            final(self).wf(),
            final(self).keys() == old(self).keys().push(key),
            final(self).values() == old(self).values().push(value),
            final(self)@ == old(self)@.insert(key, value),
    {
        self.insert_at(self.keys.len(), key, value);
        assert(self.keys@ =~= old(self).keys@.push(key));
        assert(self.values@ =~= old(self).values@.push(value));
    }

    /// Inserts an entry at index `i` for a key that has none.
    pub fn insert_at(&mut self, i: usize, key: AddressHash, value: T)
        requires
            old(self).wf(),
            i <= old(self).keys().len(),
            !old(self)@.contains_key(key),
        ensures
            final(self).wf(),
            final(self).keys() == old(self).keys().insert(i as int, key),
            final(self).values() == old(self).values().insert(i as int, value),
            final(self)@ == old(self)@.insert(key, value),
    {
        self.keys.insert(i, key);
        self.values.insert(i, value);
        proof {
            let before = old(self).keys();
            let after = self.keys();
            assert forall|a: int, b: int|
                0 <= a < after.len() && 0 <= b < after.len() && a != b implies after[a]
                != after[b] by {
                let a0 = if a < i {
                    a
                } else {
                    a - 1
                };
                let b0 = if b < i {
                    b
                } else {
                    b - 1
                };
                if a != i && b != i {
                    assert(after[a] == before[a0] && after[b] == before[b0]);
                } else if a == i {
                    assert(after[b] == before[b0]);
                    assert(before.contains(before[b0]));
                } else {
                    assert(after[a] == before[a0]);
                    assert(before.contains(before[a0]));
                }
            }
            assert forall|k: AddressHash| after.contains(k) <==> (before.contains(k) || k
                == key) by {
                if before.contains(k) {
                    let j = before.index_of(k);
                    let j1 = if j < i {
                        j
                    } else {
                        j + 1
                    };
                    assert(after[j1] == k);
                }
                if k == key {
                    assert(after[i as int] == k);
                }
                if after.contains(k) {
                    let j = after.index_of(k);
                    if j != i {
                        let j0 = if j < i {
                            j
                        } else {
                            j - 1
                        };
                        assert(before[j0] == k);
                    }
                }
            }
            assert forall|k: AddressHash| #[trigger] self@.contains_key(k) implies self@[k] == old(self)@.insert(key, value)[k] by {
                let j = after.index_of(k);
                if j != i {
                    let j0 = if j < i {
                        j
                    } else {
                        j - 1
                    };
                    assert(before[j0] == k);
                    lemma_index_of(before, j0);
                }
            }
            assert(self@ =~= old(self)@.insert(key, value));
        }
    }

    /// Sets the value of a key and returns the value it had, if any. A new
    /// key goes to the end of the list; a known key keeps its place.
    pub fn insert(&mut self, key: AddressHash, value: T) -> (previous: Option<T>)
        requires
            old(self).wf(),
        ensures
            final(self).wf(),
            final(self)@ == old(self)@.insert(key, value),
            previous is Some <==> old(self)@.contains_key(key),
            previous is Some ==> previous->Some_0 == old(self)@[key] && final(self).keys() == old(self).keys(),
            previous is None ==> final(self).keys() == old(self).keys().push(key) && final(self).values() == old(self).values().push(value),
    {
        match self.position(&key) {
            Some(i) => Some(self.set_at(i, value)),
            None => {
                self.push(key, value);
                None
            },
        }
    }

    /// Removes the entry at index `i` and returns it; the entries behind it
    /// move up.
    pub fn remove_at(&mut self, i: usize) -> (entry: (AddressHash, T))
        requires
            old(self).wf(),
            i < old(self).keys().len(),
        ensures
            final(self).wf(),
            final(self).keys() == old(self).keys().remove(i as int),
            final(self).values() == old(self).values().remove(i as int),
            final(self)@ == old(self)@.remove(old(self).keys()[i as int]),
            entry.0 == old(self).keys()[i as int],
            entry.1 == old(self).values()[i as int],
            !final(self)@.contains_key(entry.0),
    {
        let key = self.keys.remove(i);
        let value = self.values.remove(i);
        proof {
            let before = old(self).keys();
            let after = self.keys();
            assert forall|a: int, b: int|
                0 <= a < after.len() && 0 <= b < after.len() && a != b implies after[a]
                != after[b] by {
                let a1 = if a < i {
                    a
                } else {
                    a + 1
                };
                let b1 = if b < i {
                    b
                } else {
                    b + 1
                };
                assert(after[a] == before[a1] && after[b] == before[b1]);
            }
            assert forall|k: AddressHash| after.contains(k) <==> (before.contains(k) && k
                != key) by {
                if before.contains(k) && k != key {
                    let j = before.index_of(k);
                    let j0 = if j < i {
                        j
                    } else {
                        j - 1
                    };
                    assert(after[j0] == k);
                }
                if after.contains(k) {
                    let j = after.index_of(k);
                    let j1 = if j < i {
                        j
                    } else {
                        j + 1
                    };
                    assert(before[j1] == k);
                }
            }
            assert forall|k: AddressHash| #[trigger] self@.contains_key(k) implies self@[k] == old(self)@.remove(key)[k] by {
                let j = after.index_of(k);
                let j1 = if j < i {
                    j
                } else {
                    j + 1
                };
                assert(before[j1] == k);
                lemma_index_of(before, j1);
            }
            assert(self@ =~= old(self)@.remove(key));
        }
        (key, value)
    }

    /// Removes the entry of a key and returns its value, if it had one.
    pub fn remove(&mut self, key: &AddressHash) -> (previous: Option<T>)
        requires
            old(self).wf(),
        ensures
            final(self).wf(),
            final(self)@ == old(self)@.remove(*key),
            previous is Some <==> old(self)@.contains_key(*key),
            previous is Some ==> previous->Some_0 == old(self)@[*key],
            previous is None ==> final(self).keys() == old(self).keys() && final(self).values()
                == old(self).values(),
    {
        match self.position(key) {
            Some(i) => {
                let entry = self.remove_at(i);
                Some(entry.1)
            },
            None => {
                assert(self@ =~= old(self)@.remove(*key));
                None
            },
        }
    }

    /// Removes the entries whose mark is set and returns how many they were;
    /// the other entries keep their order.
    pub fn remove_marked(&mut self, marks: &Vec<bool>) -> (removed: usize)
        requires
            old(self).wf(),
            marks@.len() == old(self).keys().len(),
        ensures
            final(self).wf(),
            final(self).keys() == unmarked(old(self).keys(), marks@),
            final(self).values() == unmarked(old(self).values(), marks@),
            removed == old(self).keys().len() - final(self).keys().len(),
            forall|k: AddressHash|
                #![trigger final(self)@.contains_key(k)]
                final(self)@.contains_key(k) <==> (old(self)@.contains_key(k) && !marks@[old(self).keys().index_of(k)]),
            forall|k: AddressHash|
                #![trigger final(self)@[k]]
                final(self)@.contains_key(k) ==> final(self)@[k] == old(self)@[k],
    {
        let ghost keys0 = self.keys@;
        let ghost values0 = self.values@;
        let total = self.keys.len();
        let mut i: usize = 0;
        let mut j: usize = 0;
        assert(keys0.take(0) =~= Seq::empty() && values0.take(0) =~= Seq::empty());
        assert(marks@.take(0) =~= Seq::empty());
        assert(keys0.skip(0) =~= keys0 && values0.skip(0) =~= values0);
        assert(self.keys@.take(0) =~= Seq::empty() && self.values@.take(0) =~= Seq::empty());
        while j < total
            invariant
                total == keys0.len(),
                keys0.len() == values0.len(),
                keys0.len() == marks@.len(),
                0 <= j <= total,
                0 <= i <= j,
                self.keys@.len() == i + (total - j),
                self.values@.len() == self.keys@.len(),
                self.keys@.skip(i as int) == keys0.skip(j as int),
                self.values@.skip(i as int) == values0.skip(j as int),
                self.keys@.take(i as int) == unmarked(keys0.take(j as int), marks@.take(j as int)),
                self.values@.take(i as int) == unmarked(
                    values0.take(j as int),
                    marks@.take(j as int),
                ),
            decreases total - j,
        {
            let ghost ck = self.keys@;
            let ghost cv = self.values@;
            proof {
                assert(keys0.take(j + 1).drop_last() =~= keys0.take(j as int));
                assert(values0.take(j + 1).drop_last() =~= values0.take(j as int));
                assert(marks@.take(j + 1).drop_last() =~= marks@.take(j as int));
                assert(ck[i as int] == ck.skip(i as int)[0]);
                assert(cv[i as int] == cv.skip(i as int)[0]);
                assert(keys0.skip(j + 1) =~= keys0.skip(j as int).skip(1));
                assert(values0.skip(j + 1) =~= values0.skip(j as int).skip(1));
            }
            if marks[j] {
                self.keys.remove(i);
                self.values.remove(i);
                proof {
                    assert(self.keys@.take(i as int) =~= ck.take(i as int));
                    assert(self.values@.take(i as int) =~= cv.take(i as int));
                    assert(self.keys@.skip(i as int) =~= ck.skip(i as int).skip(1));
                    assert(self.values@.skip(i as int) =~= cv.skip(i as int).skip(1));
                }
            } else {
                proof {
                    assert(ck.take(i + 1) =~= ck.take(i as int).push(ck[i as int]));
                    assert(cv.take(i + 1) =~= cv.take(i as int).push(cv[i as int]));
                    assert(ck.skip(i + 1) =~= ck.skip(i as int).skip(1));
                    assert(cv.skip(i + 1) =~= cv.skip(i as int).skip(1));
                }
                i = i + 1;
            }
            j = j + 1;
        }
        proof {
            assert(keys0.take(total as int) =~= keys0);
            assert(values0.take(total as int) =~= values0);
            assert(marks@.take(total as int) =~= marks@);
            assert(self.keys@.take(i as int) =~= self.keys@);
            assert(self.values@.take(i as int) =~= self.values@);
            lemma_unmarked(keys0, values0, marks@);
            old(self).lemma_view();
            self.lemma_view();
            assert forall|k: AddressHash| #![trigger self@.contains_key(k)] self@.contains_key(k) <==> (
            old(self)@.contains_key(k) && !marks@[old(self).keys().index_of(k)]) by {
                if self@.contains_key(k) {
                    let a = self.keys().index_of(k);
                    let b = choose|b: int|
                        0 <= b < keys0.len() && !marks@[b] && #[trigger] keys0[b] == self.keys@[a]
                            && values0[b] == self.values@[a];
                    lemma_index_of(keys0, b);
                }
                if old(self)@.contains_key(k) && !marks@[old(self).keys().index_of(k)] {
                    let b = keys0.index_of(k);
                    assert(self.keys@.contains(keys0[b]));
                }
            }
            assert forall|k: AddressHash| #![trigger self@[k]] self@.contains_key(k) implies self@[k]
                == old(self)@[k] by {
                let a = self.keys().index_of(k);
                let b = choose|b: int|
                    0 <= b < keys0.len() && !marks@[b] && #[trigger] keys0[b] == self.keys@[a]
                        && values0[b] == self.values@[a];
                lemma_index_of(keys0, b);
            }
        }
        total - self.keys.len()
    }

    /// Removes every entry.
    pub fn clear(&mut self)
        ensures
            final(self).wf(),
            final(self).keys() == Seq::<AddressHash>::empty(),
            final(self).values() == Seq::<T>::empty(),
            final(self)@ == Map::<AddressHash, T>::empty(),
    {
        self.keys.clear();
        self.values.clear();
        assert(self@ =~= Map::<AddressHash, T>::empty());
    }
}

} // verus!
