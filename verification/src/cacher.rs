//! An environment that remembers what it was asked.

use vstd::prelude::*;
use crate::fixed::{position, FixedMap};
use crate::kind::{ArcKind, KindCache};
use crate::resolve::TypeEnv;
use crate::symbol::Symbol;
use crate::types::model::{AliasTy, Ty};
use crate::types::query::{constructor_kind, kind_of};
use crate::types::{AliasRef, ArcType};

verus! {

/// Keeps the types and aliases that were asked for, so that the environment is asked once for each.
pub struct ArcTypeCacher<'a, E> {
    environment: &'a E,
    types: FixedMap<Symbol, ArcType>,
    aliases: FixedMap<Symbol, AliasRef>,
}

/// What is kept of types is what the environment answers.
pub open spec fn types_agree(entries: Seq<(Symbol, ArcType)>, types: Map<Seq<char>, Ty>) -> bool {
    forall|i: int|
        0 <= i < entries.len() ==> types.dom().contains((#[trigger] entries[i]).0@)
            && types[entries[i].0@] == entries[i].1@
}

/// What is kept of aliases is what the environment answers.
pub open spec fn aliases_agree(
    entries: Seq<(Symbol, AliasRef)>,
    infos: Map<Seq<char>, AliasTy>,
) -> bool {
    forall|i: int|
        0 <= i < entries.len() ==> infos.dom().contains((#[trigger] entries[i]).0@)
            && infos[entries[i].0@] == entries[i].1@
}

/// An entry that is found by its name has the name.
proof fn found_by_name<V>(entries: Seq<(Symbol, V)>, name: Symbol, i: int)
    requires
        0 <= i,
    ensures
        position(entries, name, i) matches Some(j) ==> i <= j < entries.len() && entries[j].0@
            == name@,
    decreases entries.len() - i,
{
    if i < entries.len() {
        found_by_name(entries, name, i + 1);
    }
}

impl<'a, E: TypeEnv> ArcTypeCacher<'a, E> {
    /// The types that the environment knows.
    pub closed spec fn types(&self) -> Map<Seq<char>, Ty> {
        self.environment.types()
    }

    /// The aliases that the environment knows.
    pub closed spec fn infos(&self) -> Map<Seq<char>, AliasTy> {
        self.environment.infos()
    }

    /// What is kept is what the environment answers.
    pub closed spec fn agrees(&self) -> bool {
        types_agree(self.types.entries(), self.types()) && aliases_agree(
            self.aliases.entries(),
            self.infos(),
        )
    }

    pub fn new(environment: &'a E) -> (res: ArcTypeCacher<'a, E>)
        ensures
            res.agrees(),
            res.types() == environment.types(),
            res.infos() == environment.infos(),
    {
        ArcTypeCacher { environment, types: FixedMap::new(), aliases: FixedMap::new() }
    }

    /// The type of the value `id`.
    pub fn find_type(&mut self, id: &Symbol) -> (res: Option<ArcType>)
        requires
            old(self).agrees(),
        ensures
            final(self).agrees(),
            final(self).types() == old(self).types(),
            final(self).infos() == old(self).infos(),
            match res {
                Some(typ) => old(self).types().dom().contains(id@) && old(self).types()[id@]
                    == typ@,
                None => !old(self).types().dom().contains(id@),
            },
    {
        proof {
            found_by_name(self.types.entries(), *id, 0);
        }
        if let Some(typ) = self.types.get(id) {
            return Some(typ.clone());
        }
        match self.environment.find_type(id) {
            Some(typ) => {
                let ghost before = self.types.entries();
                let _ = self.types.try_insert(id.clone(), typ.clone());
                proof {
                    let after = self.types.entries();
                    assert forall|i: int| 0 <= i < after.len() implies self.types().dom().contains(
                        (#[trigger] after[i]).0@,
                    ) && self.types()[after[i].0@] == after[i].1@ by {
                        if i < before.len() {
                            assert(after[i] == before[i]);
                        }
                    }
                }
                Some(typ)
            },
            None => None,
        }
    }

    /// The alias `id`.
    pub fn find_type_info(&mut self, id: &Symbol) -> (res: Option<AliasRef>)
        requires
            old(self).agrees(),
        ensures
            final(self).agrees(),
            final(self).types() == old(self).types(),
            final(self).infos() == old(self).infos(),
            match res {
                Some(alias) => old(self).infos().dom().contains(id@) && old(self).infos()[id@]
                    == alias@,
                None => !old(self).infos().dom().contains(id@),
            },
    {
        proof {
            found_by_name(self.aliases.entries(), *id, 0);
        }
        if let Some(alias) = self.aliases.get(id) {
            return Some(alias.clone());
        }
        match self.environment.find_type_info(id) {
            Some(alias) => {
                let ghost before = self.aliases.entries();
                let _ = self.aliases.try_insert(id.clone(), alias.clone());
                proof {
                    let after = self.aliases.entries();
                    assert forall|i: int| 0 <= i < after.len() implies self.infos().dom().contains(
                        (#[trigger] after[i]).0@,
                    ) && self.infos()[after[i].0@] == after[i].1@ by {
                        if i < before.len() {
                            assert(after[i] == before[i]);
                        }
                    }
                }
                Some(alias)
            },
            None => None,
        }
    }

    /// The kind of the type `name`.
    pub fn find_kind(&mut self, name: &Symbol, kinds: &KindCache) -> (res: Option<ArcKind>)
        requires
            old(self).agrees(),
            kinds.wf(),
        ensures
            final(self).agrees(),
            final(self).types() == old(self).types(),
            final(self).infos() == old(self).infos(),
            match res {
                Some(kind) => old(self).infos().dom().contains(name@) && *kind
                    == constructor_kind(
                    kind_of(old(self).infos()[name@].data().typ, 0),
                    old(self).infos()[name@].data().params,
                ),
                None => !old(self).infos().dom().contains(name@),
            },
    {
        match self.find_type_info(name) {
            Some(alias) => Some(alias.data().kind(kinds)),
            None => None,
        }
    }
}

} // verus!
