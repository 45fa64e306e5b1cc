//! Collection types in which an earlier inserted value is never overwritten.

use vstd::prelude::*;
use crate::symbol::Symbol;
use crate::text::same;

verus! {

/// What values can be found by.
pub trait Key: Sized {
    /// What tells keys apart.
    type Value;

    spec fn value(&self) -> Self::Value;

    /// Whether the same is found by `self` and by `other`.
    fn same_key(&self, other: &Self) -> (res: bool)
        ensures
            res == (self.value() == other.value()),
    ;
}

impl Key for String {
    type Value = Seq<char>;

    open spec fn value(&self) -> Seq<char> {
        self@
    }

    fn same_key(&self, other: &String) -> (res: bool) {
        same(self.as_str(), other.as_str())
    }
}

impl Key for Symbol {
    type Value = Seq<char>;

    open spec fn value(&self) -> Seq<char> {
        self@
    }

    fn same_key(&self, other: &Symbol) -> (res: bool) {
        same(self.as_str(), other.as_str())
    }
}

impl Key for u64 {
    type Value = u64;

    open spec fn value(&self) -> u64 {
        *self
    }

    fn same_key(&self, other: &u64) -> (res: bool) {
        *self == *other
    }
}

/// A mapping between keys and values where once a value has been inserted it cannot be changed
pub struct FixedMap<K: Key, V> {
    entries: Vec<(K, V)>,
}

/// No key occurs twice.
pub open spec fn distinct<K: Key, V>(entries: Seq<(K, V)>) -> bool {
    forall|i: int, j: int|
        0 <= i < j < entries.len() ==> (#[trigger] entries[i]).0.value() != (
        #[trigger] entries[j]).0.value()
}

/// The position of the entry for `key` from `i` on.
pub open spec fn position<K: Key, V>(entries: Seq<(K, V)>, key: K, i: int) -> Option<int>
    decreases entries.len() - i,
{
    if i < 0 || i >= entries.len() {
        None
    } else if entries[i].0.value() == key.value() {
        Some(i)
    } else {
        position(entries, key, i + 1)
    }
}

impl<K: Key, V> FixedMap<K, V> {
    #[verifier::type_invariant]
    closed spec fn wf(self) -> bool {
        distinct(self.entries@)
    }

    /// The entries, in the order in which they were inserted.
    pub closed spec fn entries(&self) -> Seq<(K, V)> {
        self.entries@
    }

    pub fn new() -> (res: FixedMap<K, V>)
        ensures
            res.entries().len() == 0,
    {
        FixedMap { entries: Vec::new() }
    }

    pub fn clear(&mut self)
        ensures
            final(self).entries().len() == 0,
    {
        *self = FixedMap::new();
    }

    fn find(&self, key: &K) -> (res: Option<usize>)
        ensures
            match res {
                Some(i) => position(self.entries(), *key, 0) == Some(i as int) && i
                    < self.entries@.len() && self.entries@[i as int].0.value() == key.value(),
                None => position(self.entries(), *key, 0) is None && forall|i: int|
                    0 <= i < self.entries@.len() ==> (#[trigger] self.entries@[i]).0.value()
                        != key.value(),
            },
    {
        let mut i: usize = 0;
        while i < self.entries.len()
            invariant
                i <= self.entries@.len(),
                position(self.entries(), *key, 0) == position(self.entries(), *key, i as int),
                forall|j: int| 0 <= j < i ==> (#[trigger] self.entries@[j]).0.value() != key.value(),
            decreases self.entries@.len() - i,
        {
            if self.entries[i].0.same_key(key) {
                return Some(i);
            }
            i += 1;
        }
        None
    }

    /// Inserts `value`, unless there is a value for `key` already. It is given back then.
    pub fn try_insert(&mut self, key: K, value: V) -> (res: Result<(), (K, V)>)
        ensures
            final(self).entries() == with(old(self).entries(), (key, value)),
            match position(old(self).entries(), key, 0) {
                Some(_) => res == Err::<(), (K, V)>((key, value)),
                None => res == Ok::<(), (K, V)>(()),
            },
    {
        proof {
            use_type_invariant(&*self);
        }
        if self.find(&key).is_some() {
            Err((key, value))
        } else {
            let mut entries: Vec<(K, V)> = Vec::new();
            std::mem::swap(&mut entries, &mut self.entries);
            entries.push((key, value));
            *self = FixedMap { entries };
            Ok(())
        }
    }

    /// The number of entries. Each has a key of its own.
    pub fn len(&self) -> (res: usize)
        ensures
            res == self.entries().len(),
            distinct(self.entries()),
    {
        proof {
            use_type_invariant(&*self);
        }
        self.entries.len()
    }

    /// The value for `k`.
    pub fn get(&self, k: &K) -> (res: Option<&V>)
        ensures
            match position(self.entries(), *k, 0) {
                Some(i) => res == Some(&self.entries()[i].1),
                None => res is None,
            },
    {
        match self.find(k) {
            Some(i) => Some(&self.entries[i].1),
            None => None,
        }
    }
}

/// What was inserted for a key stays: whatever is inserted later, the same value is found.
pub proof fn inserted_stays<K: Key, V>(
    entries: Seq<(K, V)>,
    more: Seq<(K, V)>,
    key: K,
    i: int,
)
    requires
        0 <= i <= entries.len(),
        position(entries, key, i) is Some,
    ensures
        position(entries + more, key, i) == position(entries, key, i),
    decreases entries.len() - i,
{
    if i < entries.len() && entries[i].0.value() != key.value() {
        inserted_stays(entries, more, key, i + 1);
    }
}

/// What was inserted is found: after an insertion there is a value for its key, and where there
/// was none before it is the one that was inserted.
pub proof fn inserted_is_found<K: Key, V>(entries: Seq<(K, V)>, key: K, value: V)
    ensures
        position(with(entries, (key, value)), key, 0) == match position(entries, key, 0) {
            Some(i) => Some(i),
            None => Some(entries.len() as int),
        },
{
    if position(entries, key, 0) is None {
        found_at_the_end(entries, key, value, 0);
    }
}

proof fn found_at_the_end<K: Key, V>(entries: Seq<(K, V)>, key: K, value: V, i: int)
    requires
        0 <= i <= entries.len(),
        position(entries, key, i) is None,
    ensures
        position(entries.push((key, value)), key, i) == Some(entries.len() as int),
    decreases entries.len() - i,
{
    if i < entries.len() {
        found_at_the_end(entries, key, value, i + 1);
    }
}

/// What is found for a key is an entry for it, and nothing is found only if there is none.
pub proof fn found_by_key<K: Key, V>(entries: Seq<(K, V)>, key: K)
    ensures
        match position(entries, key, 0) {
            Some(i) => 0 <= i < entries.len() && entries[i].0.value() == key.value(),
            None => forall|i: int|
                0 <= i < entries.len() ==> (#[trigger] entries[i]).0.value() != key.value(),
        },
{
    found_by_key_from(entries, key, 0);
}

proof fn found_by_key_from<K: Key, V>(entries: Seq<(K, V)>, key: K, from: int)
    requires
        0 <= from,
    ensures
        match position(entries, key, from) {
            Some(i) => from <= i < entries.len() && entries[i].0.value() == key.value(),
            None => forall|i: int|
                from <= i < entries.len() ==> (#[trigger] entries[i]).0.value() != key.value(),
        },
    decreases entries.len() - from,
{
    if from < entries.len() {
        found_by_key_from(entries, key, from + 1);
    }
}

/// `entries` after the insertion of `entry`.
pub open spec fn with<K: Key, V>(entries: Seq<(K, V)>, entry: (K, V)) -> Seq<(K, V)> {
    if position(entries, entry.0, 0) is Some {
        entries
    } else {
        entries.push(entry)
    }
}

/// `entries` after the insertion of each of `more` in order.
pub open spec fn with_all<K: Key, V>(entries: Seq<(K, V)>, more: Seq<(K, V)>) -> Seq<(K, V)>
    decreases more.len(),
{
    if more.len() == 0 {
        entries
    } else {
        with(with_all(entries, more.drop_last()), more.last())
    }
}

/// How many of the insertions of `more` into `entries` insert something.
pub open spec fn successes<K: Key, V>(entries: Seq<(K, V)>, more: Seq<(K, V)>) -> nat
    decreases more.len(),
{
    if more.len() == 0 {
        0
    } else {
        let before = with_all(entries, more.drop_last());
        successes(entries, more.drop_last()) + if position(before, more.last().0, 0) is None {
            1nat
        } else {
            0
        }
    }
}

/// The keys of `entries`.
pub open spec fn keys<K: Key, V>(entries: Seq<(K, V)>) -> Set<K::Value>
    decreases entries.len(),
{
    if entries.len() == 0 {
        Set::empty()
    } else {
        keys(entries.drop_last()).insert(entries.last().0.value())
    }
}

/// `key` is among the keys of `entries` if an entry has it.
pub proof fn has_key<K: Key, V>(entries: Seq<(K, V)>, key: K::Value)
    ensures
        keys(entries).contains(key) <==> exists|i: int|
            0 <= i < entries.len() && (#[trigger] entries[i]).0.value() == key,
    decreases entries.len(),
{
    if entries.len() > 0 {
        let before = entries.drop_last();
        has_key(before, key);
        if entries.last().0.value() == key {
            assert(entries[entries.len() - 1].0.value() == key);
        } else if keys(entries).contains(key) {
            let i = choose|i: int|
                0 <= i < before.len() && (#[trigger] before[i]).0.value() == key;
            assert(entries[i].0.value() == key);
        } else if exists|i: int|
            0 <= i < entries.len() && (#[trigger] entries[i]).0.value() == key {
            let i = choose|i: int|
                0 <= i < entries.len() && (#[trigger] entries[i]).0.value() == key;
            assert(before[i].0.value() == key);
        }
    }
}

/// A map grows by one with each insertion that succeeds.
pub proof fn grows_by_successes<K: Key, V>(entries: Seq<(K, V)>, more: Seq<(K, V)>)
    ensures
        with_all(entries, more).len() == entries.len() + successes(entries, more),
    decreases more.len(),
{
    if more.len() > 0 {
        grows_by_successes(entries, more.drop_last());
    }
}

/// A map that was empty holds as many entries as there are keys among what was inserted, and it
/// holds those keys.
pub proof fn as_many_as_keys<K: Key, V>(inserted: Seq<(K, V)>)
    ensures
        with_all(Seq::empty(), inserted).len() == keys(inserted).len(),
        keys(with_all(Seq::empty(), inserted)) == keys(inserted),
        keys(inserted).finite(),
        distinct(with_all(Seq::empty(), inserted)),
    decreases inserted.len(),
{
    if inserted.len() > 0 {
        as_many_as_keys(inserted.drop_last());
        let before = with_all(Seq::empty(), inserted.drop_last());
        let entry = inserted.last();
        let all = with_all(Seq::empty(), inserted);
        found_by_key(before, entry.0);
        has_key(before, entry.0.value());
        match position(before, entry.0, 0) {
            Some(i) => {
                assert(before[i].0.value() == entry.0.value());
                assert(keys(inserted) =~= keys(inserted.drop_last()));
            },
            None => {
                assert(all.drop_last() =~= before);
                assert(keys(all) == keys(before).insert(entry.0.value()));
                assert forall|i: int, j: int| 0 <= i < j < all.len() implies (
                #[trigger] all[i]).0.value() != (#[trigger] all[j]).0.value() by {
                    assert(all[i] == before[i]);
                    if j < before.len() {
                        assert(all[j] == before[j]);
                    }
                }
            },
        }
    }
}

/// A list to which values are added only.
pub struct FixedVec<T> {
    vec: Vec<T>,
}

impl<T> View for FixedVec<T> {
    type V = Seq<T>;

    closed spec fn view(&self) -> Seq<T> {
        self.vec@
    }
}

impl<T> FixedVec<T> {
    pub fn new() -> (res: FixedVec<T>)
        ensures
            res@ == Seq::<T>::empty(),
    {
        FixedVec { vec: Vec::new() }
    }

    pub fn clear(&mut self)
        ensures
            final(self)@ == Seq::<T>::empty(),
    {
        self.vec.clear();
    }

    pub fn push(&mut self, value: T)
        ensures
            final(self)@ == old(self)@.push(value),
    {
        self.vec.push(value);
    }

    pub fn extend(&mut self, values: Vec<T>)
        ensures
            final(self)@ == old(self)@ + values@,
    {
        let mut values = values;
        self.vec.append(&mut values);
    }

    pub fn borrow(&self) -> (res: &Vec<T>)
        ensures
            res@ == self@,
    {
        &self.vec
    }

    /// The first value for which `test` holds, and its position.
    pub fn find<F: Fn(&T) -> bool>(&self, test: F) -> (res: Option<(usize, &T)>)
        requires
            forall|value: &T| #[trigger] call_requires(test, (value,)),
        ensures
            match res {
                Some((i, value)) => i < self@.len() && *value == self@[i as int] && call_ensures(
                    test,
                    (value,),
                    true,
                ) && forall|j: int|
                    0 <= j < i ==> call_ensures(test, (&#[trigger] self@[j],), false),
                None => forall|j: int|
                    0 <= j < self@.len() ==> call_ensures(test, (&#[trigger] self@[j],), false),
            },
    {
        let mut i: usize = 0;
        while i < self.vec.len()
            invariant
                i <= self@.len(),
                forall|value: &T| #[trigger] call_requires(test, (value,)),
                forall|j: int| 0 <= j < i ==> call_ensures(test, (&#[trigger] self@[j],), false),
            decreases self@.len() - i,
        {
            let value = &self.vec[i];
            if test(value) {
                return Some((i, value));
            }
            i += 1;
        }
        None
    }

    pub fn len(&self) -> (res: usize)
        ensures
            res == self@.len(),
    {
        self.vec.len()
    }

    /// The value at `index`.
    pub fn index(&self, index: usize) -> (res: &T)
        requires
            index < self@.len(),
        ensures
            *res == self@[index as int],
    {
        &self.vec[index]
    }
}

} // verus!
