//! Maps from symbols to values.

use vstd::prelude::*;
use crate::symbol::Symbol;

verus! {

/// A map keyed by symbols. A later binding of a name hides the earlier ones.
pub struct SymbolMap<V> {
    entries: Vec<(Symbol, V)>,
}

/// The map that a list of bindings stands for.
pub open spec fn bindings<V>(entries: Seq<(Symbol, V)>) -> Map<Seq<char>, V>
    decreases entries.len(),
{
    if entries.len() == 0 {
        Map::empty()
    } else {
        bindings(entries.drop_last()).insert(entries.last().0@, entries.last().1)
    }
}

/// The names of `symbols`.
pub open spec fn names(symbols: Seq<Symbol>) -> Set<Seq<char>> {
    Set::new(|name: Seq<char>| exists|i: int| 0 <= i < symbols.len() && (#[trigger] symbols[i])@ == name)
}

/// Whether `symbol` is one of `symbols`.
pub fn contains_symbol(symbols: &Vec<Symbol>, symbol: &Symbol) -> (res: bool)
    ensures
        res == names(symbols@).contains(symbol@),
{
    let mut i: usize = 0;
    while i < symbols.len()
        invariant
            i <= symbols@.len(),
            forall|j: int| 0 <= j < i ==> (#[trigger] symbols@[j])@ != symbol@,
        decreases symbols@.len() - i,
    {
        if symbols[i] == *symbol {
            return true;
        }
        i += 1;
    }
    false
}

impl<V> View for SymbolMap<V> {
    type V = Map<Seq<char>, V>;

    closed spec fn view(&self) -> Map<Seq<char>, V> {
        bindings(self.entries@)
    }
}

impl<V> SymbolMap<V> {
    pub fn new() -> (res: SymbolMap<V>)
        ensures
            res@ == Map::<Seq<char>, V>::empty(),
    {
        SymbolMap { entries: Vec::new() }
    }

    /// Whether nothing is bound.
    pub fn is_empty(&self) -> (res: bool)
        ensures
            res == (self@ == Map::<Seq<char>, V>::empty()),
    {
        let res = self.entries.len() == 0;
        proof {
            if self.entries@.len() != 0 {
                assert(self@.dom().contains(self.entries@.last().0@));
                assert(!Map::<Seq<char>, V>::empty().dom().contains(self.entries@.last().0@));
            }
        }
        res
    }

    /// Binds `key` to `value`.
    pub fn insert(&mut self, key: Symbol, value: V)
        ensures
            final(self)@ == old(self)@.insert(key@, value),
    {
        self.entries.push((key, value));
        proof {
            assert(self.entries@.drop_last() =~= old(self).entries@);
        }
    }

    /// What `key` is bound to.
    pub fn get(&self, key: &Symbol) -> (res: Option<&V>)
        ensures
            match res {
                Some(value) => self@.dom().contains(key@) && self@[key@] == *value,
                None => !self@.dom().contains(key@),
            },
    {
        let mut i: usize = self.entries.len();
        proof {
            assert(self.entries@.subrange(0, i as int) =~= self.entries@);
        }
        while i > 0
            invariant
                i <= self.entries@.len(),
                bindings(self.entries@).dom().contains(key@) == bindings(
                    self.entries@.subrange(0, i as int),
                ).dom().contains(key@),
                bindings(self.entries@).dom().contains(key@) ==> bindings(self.entries@)[key@]
                    == bindings(self.entries@.subrange(0, i as int))[key@],
            decreases i,
        {
            i -= 1;
            proof {
                let prefix = self.entries@.subrange(0, i + 1);
                assert(prefix.drop_last() =~= self.entries@.subrange(0, i as int));
                assert(prefix.last() == self.entries@[i as int]);
            }
            if self.entries[i].0 == *key {
                return Some(&self.entries[i].1);
            }
        }
        None
    }

    /// The map without the bindings of `keys`.
    pub fn without(&self, keys: &Vec<Symbol>) -> (res: SymbolMap<V>) where V: Clone
        requires
            forall|a: V, b: V| #[trigger] call_ensures(V::clone, (&a,), b) ==> a == b,
            forall|a: V| #[trigger] call_requires(V::clone, (&a,)),
        ensures
            res@ == self@.remove_keys(names(keys@)),
    {
        let mut res: SymbolMap<V> = SymbolMap::new();
        let ghost hidden = names(keys@);
        let mut i: usize = 0;
        assert(self.entries@.take(0) =~= Seq::<(Symbol, V)>::empty());
        assert(Map::<Seq<char>, V>::empty().remove_keys(hidden) =~= Map::empty());
        while i < self.entries.len()
            invariant
                forall|a: V, b: V| #[trigger] call_ensures(V::clone, (&a,), b) ==> a == b,
                forall|a: V| #[trigger] call_requires(V::clone, (&a,)),
                i <= self.entries@.len(),
                hidden == names(keys@),
                res@ == bindings(self.entries@.take(i as int)).remove_keys(hidden),
            decreases self.entries@.len() - i,
        {
            let ghost before = bindings(self.entries@.take(i as int));
            let ghost key = self.entries@[i as int].0@;
            let ghost value = self.entries@[i as int].1;
            proof {
                let prefix = self.entries@.take(i + 1);
                assert(prefix.drop_last() =~= self.entries@.take(i as int));
                assert(prefix.last() == self.entries@[i as int]);
            }
            if contains_symbol(keys, &self.entries[i].0) {
                assert(before.insert(key, value).remove_keys(hidden) =~= before.remove_keys(hidden));
            } else {
                let value = self.entries[i].1.clone();
                res.insert(self.entries[i].0.clone(), value);
                assert(before.insert(key, value).remove_keys(hidden) =~= before.remove_keys(
                    hidden,
                ).insert(key, value));
            }
            i += 1;
        }
        assert(self.entries@.take(i as int) =~= self.entries@);
        res
    }

    /// Whether `key` is bound.
    pub fn contains(&self, key: &Symbol) -> (res: bool)
        ensures
            res == self@.dom().contains(key@),
    {
        self.get(key).is_some()
    }
}


} // verus!
