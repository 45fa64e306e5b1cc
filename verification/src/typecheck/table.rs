//! Tables of names in which later entries hide earlier ones.

use vstd::prelude::*;
use crate::symbol::Symbol;
use crate::types::model::Ty;
use crate::types::ArcType;

verus! {

/// What `name` is bound to last.
pub open spec fn latest<V>(table: Seq<(Seq<char>, V)>, name: Seq<char>) -> Option<V>
    decreases table.len(),
{
    if table.len() == 0 {
        None
    } else if table.last().0 == name {
        Some(table.last().1)
    } else {
        latest(table.drop_last(), name)
    }
}

pub proof fn latest_is_at<V>(table: Seq<(Seq<char>, V)>, name: Seq<char>, i: int)
    requires
        0 <= i < table.len(),
        table[i].0 == name,
        forall|j: int| i < j < table.len() ==> (#[trigger] table[j]).0 != name,
    ensures
        latest(table, name) == Some(table[i].1),
    decreases table.len(),
{
    if i + 1 < table.len() {
        assert(table.last() == table[table.len() - 1]);
        assert forall|j: int| i < j < table.drop_last().len() implies (
        #[trigger] table.drop_last()[j]).0 != name by {
            assert(table.drop_last()[j] == table[j]);
        }
        latest_is_at(table.drop_last(), name, i);
    }
}

pub proof fn latest_is_none<V>(table: Seq<(Seq<char>, V)>, name: Seq<char>)
    requires
        forall|j: int| 0 <= j < table.len() ==> (#[trigger] table[j]).0 != name,
    ensures
        latest(table, name) is None,
    decreases table.len(),
{
    if table.len() > 0 {
        assert(table.last() == table[table.len() - 1]);
        assert forall|j: int| 0 <= j < table.drop_last().len() implies (
        #[trigger] table.drop_last()[j]).0 != name by {
            assert(table.drop_last()[j] == table[j]);
        }
        latest_is_none(table.drop_last(), name);
    }
}

/// Where `name` is bound last.
pub fn find_last<V>(table: &Vec<(Symbol, V)>, name: &Symbol) -> (res: Option<usize>)
    ensures
        match res {
            Some(i) => i < table@.len() && table@[i as int].0@ == name@ && forall|j: int|
                i < j < table@.len() ==> (#[trigger] table@[j]).0@ != name@,
            None => forall|j: int| 0 <= j < table@.len() ==> (#[trigger] table@[j]).0@ != name@,
        },
{
    let mut i: usize = table.len();
    while i > 0
        invariant
            i <= table@.len(),
            forall|j: int| i <= j < table@.len() ==> (#[trigger] table@[j]).0@ != name@,
        decreases i,
    {
        i -= 1;
        if table[i].0 == *name {
            return Some(i);
        }
    }
    None
}

/// The types that names are bound to.
pub open spec fn types_table(table: Seq<(Symbol, ArcType)>) -> Seq<(Seq<char>, Ty)> {
    table.map_values(|entry: (Symbol, ArcType)| (entry.0@, entry.1@))
}

/// The names that names are bound to.
pub open spec fn names_table(table: Seq<(Symbol, Symbol)>) -> Seq<(Seq<char>, Seq<char>)> {
    table.map_values(|entry: (Symbol, Symbol)| (entry.0@, entry.1@))
}

/// The type that `name` is bound to.
pub fn latest_type<'a>(table: &'a Vec<(Symbol, ArcType)>, name: &Symbol) -> (res: Option<
    &'a ArcType,
>)
    ensures
        match res {
            Some(typ) => latest(types_table(table@), name@) == Some(typ@),
            None => latest(types_table(table@), name@) is None,
        },
{
    match find_last(table, name) {
        Some(i) => {
            proof {
                let all = types_table(table@);
                assert forall|j: int| i < j < all.len() implies (#[trigger] all[j]).0 != name@ by {
                    assert(table@[j].0@ != name@);
                }
                latest_is_at(all, name@, i as int);
            }
            Some(&table[i].1)
        },
        None => {
            proof {
                let all = types_table(table@);
                assert forall|j: int| 0 <= j < all.len() implies (#[trigger] all[j]).0 != name@ by {
                    assert(table@[j].0@ != name@);
                }
                latest_is_none(all, name@);
            }
            None
        },
    }
}

/// The name that `name` is bound to.
pub fn latest_name<'a>(table: &'a Vec<(Symbol, Symbol)>, name: &Symbol) -> (res: Option<&'a Symbol>)
    ensures
        match res {
            Some(new) => latest(names_table(table@), name@) == Some(new@),
            None => latest(names_table(table@), name@) is None,
        },
{
    match find_last(table, name) {
        Some(i) => {
            proof {
                let all = names_table(table@);
                assert forall|j: int| i < j < all.len() implies (#[trigger] all[j]).0 != name@ by {
                    assert(table@[j].0@ != name@);
                }
                latest_is_at(all, name@, i as int);
            }
            Some(&table[i].1)
        },
        None => {
            proof {
                let all = names_table(table@);
                assert forall|j: int| 0 <= j < all.len() implies (#[trigger] all[j]).0 != name@ by {
                    assert(table@[j].0@ != name@);
                }
                latest_is_none(all, name@);
            }
            None
        },
    }
}

/// Where `name` is bound last among the first `n` entries.
pub open spec fn last_at<V>(table: Seq<(Seq<char>, V)>, name: Seq<char>, n: nat) -> Option<int>
    decreases n,
{
    if n == 0 || n > table.len() {
        None
    } else if table[n - 1].0 == name {
        Some(n - 1)
    } else {
        last_at(table, name, (n - 1) as nat)
    }
}

/// Where `name` is bound last among the first `n` entries.
pub fn find_before(table: &Vec<(Symbol, ArcType)>, name: &Symbol, n: usize) -> (res: Option<usize>)
    requires
        n <= table@.len(),
    ensures
        match res {
            Some(i) => last_at(types_table(table@), name@, n as nat) == Some(i as int) && i < n,
            None => last_at(types_table(table@), name@, n as nat) is None,
        },
{
    let ghost all = types_table(table@);
    let mut i: usize = n;
    while i > 0
        invariant
            i <= n <= table@.len(),
            all == types_table(table@),
            last_at(all, name@, n as nat) == last_at(all, name@, i as nat),
        decreases i,
    {
        i -= 1;
        assert(all[i as int].0 == table@[i as int].0@);
        if table[i].0 == *name {
            return Some(i);
        }
    }
    None
}

} // verus!
