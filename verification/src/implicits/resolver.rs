//! The implicit bindings in scope.

use std::collections::hash_map::RandomState;
use std::rc::Rc;
use vstd::prelude::*;
use crate::ast::TypedIdent;
use crate::implicits::partition::{
    belongs, candidates, clone_path, keys_of, path_view, rest_at, shared_view, updated_bindings,
};
use crate::implicits::store::{
    add_name, has_name, names_in, no_names, same_names, BindingTy, ImplicitBinding, Partition,
    PartitionTree,
};
use crate::metadata::{attribute_of, entry_of, Metadata, MetadataEnv};
use crate::substitution::{Subst, Substitution};
use crate::symbol::Symbol;
use crate::symbol_map::SymbolMap;
use crate::text::decimal;
use crate::types::model::{FieldTy, Ty};
use crate::types::query::{name_of, without_implicit_args};
use crate::types::rows::{remove_forall, row_fields, row_iter, without_forall};
use crate::types::walk::map_view;
use crate::types::{ArcType, Type};

verus! {

/// What implicit bindings there are, and what defined them.
pub struct Implicits {
    /// The bindings, by the names that they are found by.
    pub at: Map<Seq<Seq<char>>, Seq<BindingTy>>,
    pub definitions: Set<Seq<char>>,
}

/// The bindings in `tree`, by the names that lead to them.
pub open spec fn flat(tree: PartitionTree) -> Map<Seq<Seq<char>>, Seq<BindingTy>> {
    Map::new(
        |path: Seq<Seq<char>>| rest_at(tree, path) is Some,
        |path: Seq<Seq<char>>| rest_at(tree, path)->0,
    )
}

/// Without bindings.
pub open spec fn no_implicits() -> Implicits {
    Implicits {
        at: Map::empty().insert(Seq::empty(), Seq::empty()),
        definitions: Set::empty(),
    }
}

/// `at` with `binding`, which is found by `keys`.
pub open spec fn inserted(
    at: Map<Seq<Seq<char>>, Seq<BindingTy>>,
    keys: Seq<Seq<char>>,
    binding: BindingTy,
) -> Map<Seq<Seq<char>>, Seq<BindingTy>> {
    Map::new(
        |path: Seq<Seq<char>>| at.dom().contains(path) || belongs(keys, path),
        |path: Seq<Seq<char>>|
            if belongs(keys, path) {
                (if at.dom().contains(path) {
                    at[path]
                } else {
                    Seq::empty()
                }).push(binding)
            } else {
                at[path]
            },
    )
}

/// The bindings that are found by the first `n` of `keys`: those that the most of them lead to.
pub open spec fn found_by(
    at: Map<Seq<Seq<char>>, Seq<BindingTy>>,
    keys: Seq<Seq<char>>,
    n: nat,
) -> Seq<BindingTy>
    decreases n,
{
    let path = keys.take(n as int);
    if at.dom().contains(path) && at[path].len() > 0 {
        at[path]
    } else if n == 0 {
        Seq::empty()
    } else {
        found_by(at, keys, (n - 1) as nat)
    }
}

/// The bindings that are found in a partition are those that the most names lead to.
proof fn candidates_are_found(tree: PartitionTree, keys: Seq<Seq<char>>, n: nat)
    requires
        n == keys.len(),
    ensures
        (match candidates(tree, keys) {
            Some(found) => found,
            None => Seq::empty(),
        }) == found_by(flat(tree), keys, n),
        candidates(tree, keys) matches Some(found) ==> found.len() > 0,
    decreases keys.len(),
{
    assert(keys.take(0) =~= Seq::<Seq<char>>::empty());
    assert(rest_at(tree, Seq::empty()) == Some(tree.rest));
    if keys.len() == 0 {
    } else if tree.branches.dom().contains(keys[0]) {
        let child = tree.branches[keys[0]];
        candidates_are_found(child, keys.drop_first(), (n - 1) as nat);
        found_in_branch(tree, keys, n);
    } else {
        not_found_in_branch(tree, keys, n);
    }
}

proof fn found_in_branch(tree: PartitionTree, keys: Seq<Seq<char>>, n: nat)
    requires
        0 < n <= keys.len(),
        tree.branches.dom().contains(keys[0]),
    ensures
        ({
            let inner = found_by(
                flat(tree.branches[keys[0]]),
                keys.drop_first(),
                (n - 1) as nat,
            );
            found_by(flat(tree), keys, n) == if inner.len() > 0 {
                inner
            } else {
                tree.rest
            }
        }),
    decreases n,
{
    let child = tree.branches[keys[0]];
    let path = keys.take(n as int);
    assert(path[0] == keys[0]);
    assert(path.drop_first() =~= keys.drop_first().take(n - 1));
    assert(rest_at(tree, path) == rest_at(child, path.drop_first()));
    if n > 1 {
        found_in_branch(tree, keys, (n - 1) as nat);
    } else {
        assert(keys.take(0) =~= Seq::<Seq<char>>::empty());
        assert(rest_at(tree, keys.take(0)) == Some(tree.rest));
        assert(found_by(flat(tree), keys, 0) =~= tree.rest);
    }
}

proof fn not_found_in_branch(tree: PartitionTree, keys: Seq<Seq<char>>, n: nat)
    requires
        n <= keys.len(),
        keys.len() > 0,
        !tree.branches.dom().contains(keys[0]),
    ensures
        found_by(flat(tree), keys, n) == tree.rest,
    decreases n,
{
    if n > 0 {
        let path = keys.take(n as int);
        assert(path[0] == keys[0]);
        assert(rest_at(tree, path) is None);
        not_found_in_branch(tree, keys, (n - 1) as nat);
    } else {
        assert(keys.take(0) =~= Seq::<Seq<char>>::empty());
        assert(rest_at(tree, keys.take(0)) == Some(tree.rest));
        assert(found_by(flat(tree), keys, 0) =~= tree.rest);
    }
}

/// Implicit bindings.
pub struct ImplicitBindings {
    partition: Partition,
    definitions: rpds::HashTrieSet<String, RandomState>,
}

impl View for ImplicitBindings {
    type V = Implicits;

    closed spec fn view(&self) -> Implicits {
        Implicits { at: flat(self.partition@), definitions: names_in(self.definitions) }
    }
}

pub open spec fn opt_name(name: Option<Symbol>) -> Option<Seq<char>> {
    match name {
        Some(name) => Some(name@),
        None => None,
    }
}

/// `s` with `binding`, which is found by `keys` and was defined by `definition`.
pub open spec fn with_implicit(
    s: Implicits,
    definition: Option<Seq<char>>,
    keys: Seq<Seq<char>>,
    binding: BindingTy,
) -> Implicits {
    Implicits {
        at: inserted(s.at, keys, binding),
        definitions: match definition {
            Some(definition) => s.definitions.insert(definition),
            None => s.definitions,
        },
    }
}

impl ImplicitBindings {
    pub fn new() -> (res: ImplicitBindings)
        ensures
            res@ == no_implicits(),
    {
        let res = ImplicitBindings { partition: Partition::new(), definitions: no_names() };
        proof {
            let tree = res.partition@;
            assert forall|path: Seq<Seq<char>>| rest_at(tree, path) is Some == (path
                == Seq::<Seq<char>>::empty()) by {
                if path.len() == 0 {
                    assert(path =~= Seq::empty());
                }
            }
            assert(flat(tree) =~= no_implicits().at);
        }
        res
    }

    /// The same bindings.
    pub fn duplicate(&self) -> (res: ImplicitBindings)
        ensures
            res@ == self@,
    {
        ImplicitBindings {
            partition: self.partition.duplicate(),
            definitions: same_names(&self.definitions),
        }
    }

    /// Adds a binding of the type `typ` that is reached by `path` and was defined by `definition`.
    pub fn insert(
        &mut self,
        subs: &Substitution,
        definition: Option<Symbol>,
        path: Vec<TypedIdent>,
        typ: &ArcType,
    )
        requires
            keys_of(subs@, Some(typ@)) is Some,
        ensures
            final(self)@ == with_implicit(
                old(self)@,
                opt_name(definition),
                keys_of(subs@, Some(typ@))->0,
                (BindingTy { path: path_view(path@), typ: typ@ }),
            ),
    {
        let ghost keys = keys_of(subs@, Some(typ@))->0;
        if let Some(definition) = &definition {
            add_name(&mut self.definitions, definition.as_str().to_owned());
        }
        let binding = Rc::new(ImplicitBinding { path, typ: typ.clone() });
        let ghost before = self.partition@;
        self.partition.insert(subs, Some(typ.clone()), binding);
        assert(binding@ == (BindingTy { path: path_view(path@), typ: typ@ }));
        assert(flat(self.partition@) =~= inserted(flat(before), keys, binding@));
    }

    /// Gives the bindings that are reached by their names alone the types that they have in `types`.
    pub fn update(&mut self, types: &SymbolMap<ArcType>)
        requires
            forall|path: Seq<Seq<char>>| #[trigger]
                old(self)@.at.dom().contains(path)
                    ==> crate::implicits::partition::all_typed(
                    old(self)@.at[path],
                    map_view(types@),
                ),
        ensures
            final(self)@.definitions == old(self)@.definitions,
            final(self)@.at == old(self)@.at.map_values(
                |rest: Seq<BindingTy>| updated_bindings(rest, map_view(types@)),
            ),
    {
        let ghost tree = self.partition@;
        proof {
            assert forall|path: Seq<Seq<char>>|
                (#[trigger] rest_at(tree, path)) matches Some(rest)
                implies crate::implicits::partition::all_typed(
                rest_at(tree, path)->0,
                map_view(types@),
            ) by {
                assert(self@.at.dom().contains(path));
            }
        }
        self.partition.update(types);
        assert(flat(self.partition@) =~= flat(tree).map_values(
            |rest: Seq<BindingTy>| updated_bindings(rest, map_view(types@)),
        ));
    }

    /// The bindings that are found by the names in `typ`.
    pub fn get_candidates(&self, subs: &Substitution, typ: &ArcType) -> (res: Vec<
        Rc<ImplicitBinding>,
    >)
        requires
            keys_of(subs@, Some(typ@)) is Some,
        ensures
            ({
                let keys = keys_of(subs@, Some(typ@))->0;
                shared_view(res@) == found_by(self@.at, keys, keys.len())
            }),
    {
        proof {
            let keys = keys_of(subs@, Some(typ@))->0;
            candidates_are_found(self.partition@, keys, keys.len());
        }
        match self.partition.get_candidates(subs, Some(typ.clone())) {
            Some(found) => found,
            None => {
                let none: Vec<Rc<ImplicitBinding>> = Vec::new();
                assert(shared_view(none@) =~= Seq::<BindingTy>::empty());
                none
            },
        }
    }

    /// Whether a value that was defined by `definition` is among the bindings.
    pub fn defines(&self, definition: &Symbol) -> (res: bool)
        ensures
            res == self@.definitions.contains(definition@),
    {
        has_name(&self.definitions, definition.as_str())
    }
}

/// A value with `metadata` is marked as implicit.
pub open spec fn marked_implicit(metadata: Option<Metadata>) -> bool {
    match metadata {
        Some(metadata) => attribute_of(metadata.attributes@, "implicit"@, 0) is Some,
        None => false,
    }
}

fn is_marked(metadata: Option<&Metadata>) -> (res: bool)
    ensures
        res == marked_implicit(
            match metadata {
                Some(metadata) => Some(*metadata),
                None => None,
            },
        ),
{
    match metadata {
        Some(metadata) => metadata.get_attribute("implicit").is_some(),
        None => false,
    }
}

/// The name of the type of an implicit value: without quantifiers and implicit arguments.
pub open spec fn implicit_type_name(t: Ty) -> Option<Seq<char>> {
    name_of(without_forall(without_implicit_args(without_forall(t))))
}

pub open spec fn lookup(map: Map<Seq<char>, Metadata>, name: Seq<char>) -> Option<Metadata> {
    if map.dom().contains(name) {
        Some(map[name])
    } else {
        None
    }
}

/// What is known of values and types: by local names, then by those from outside.
pub struct Marks {
    pub local: Map<Seq<char>, Metadata>,
    pub outer: Map<Seq<char>, Metadata>,
}

impl Marks {
    pub open spec fn get(self, name: Seq<char>) -> Option<Metadata> {
        match lookup(self.local, name) {
            Some(metadata) => Some(metadata),
            None => lookup(self.outer, name),
        }
    }
}

/// A value of the type `t` with `metadata` is an implicit one: it is marked as such, or its type is.
pub open spec fn is_implicit(marks: Marks, metadata: Option<Metadata>, t: Ty) -> bool {
    marked_implicit(metadata) || match implicit_type_name(t) {
        Some(name) => marked_implicit(marks.get(name)),
        None => false,
    }
}

/// What defined a value with `metadata`.
pub open spec fn definition_of(metadata: Option<Metadata>) -> Option<Seq<char>> {
    match metadata {
        Some(metadata) => opt_name(metadata.definition),
        None => None,
    }
}

/// A value of the type `t` with `metadata` becomes an implicit binding beside those in `s`: it is an
/// implicit one, and what defined it has not been added already, which would make it ambiguous.
pub open spec fn becomes_implicit(
    marks: Marks,
    s: Implicits,
    metadata: Option<Metadata>,
    t: Ty,
) -> bool {
    is_implicit(marks, metadata, t) && match definition_of(metadata) {
        Some(definition) => !s.definitions.contains(definition),
        None => true,
    }
}

/// `s` with the value `name` of the type `t`, if it becomes an implicit binding. It is reached by
/// `path` and its name.
pub open spec fn with_value(
    marks: Marks,
    subst: Subst,
    s: Implicits,
    metadata: Option<Metadata>,
    path: Seq<(Seq<char>, Ty)>,
    name: Seq<char>,
    t: Ty,
) -> Option<Implicits> {
    if becomes_implicit(marks, s, metadata, t) {
        match keys_of(subst, Some(t)) {
            None => None,
            Some(keys) => Some(
                with_implicit(
                    s,
                    definition_of(metadata),
                    keys,
                    BindingTy { path: path.push((name, t)), typ: t },
                ),
            ),
        }
    } else {
        Some(s)
    }
}

/// What is known of the field `name` of a value with `metadata`.
pub open spec fn field_metadata(metadata: Option<Metadata>, name: Seq<char>) -> Option<Metadata> {
    match metadata {
        None => None,
        Some(metadata) => match entry_of(metadata.module@, name, 0) {
            Some(i) => Some(metadata.module@[i].1),
            None => None,
        },
    }
}

/// `s` with the first `n` fields of a record that become implicit bindings.
pub open spec fn with_fields(
    marks: Marks,
    subst: Subst,
    s: Implicits,
    metadata: Option<Metadata>,
    path: Seq<(Seq<char>, Ty)>,
    fields: Seq<FieldTy>,
    n: nat,
) -> Option<Implicits>
    decreases n,
{
    if n == 0 || n > fields.len() {
        Some(s)
    } else {
        match with_fields(marks, subst, s, metadata, path, fields, (n - 1) as nat) {
            None => None,
            Some(s) => with_value(
                marks,
                subst,
                s,
                field_metadata(metadata, fields[n - 1].name),
                path,
                fields[n - 1].name,
                fields[n - 1].typ,
            ),
        }
    }
}

proof fn with_fields_before(
    marks: Marks,
    subst: Subst,
    s: Implicits,
    metadata: Option<Metadata>,
    path: Seq<(Seq<char>, Ty)>,
    fields: Seq<FieldTy>,
    m: nat,
    n: nat,
)
    requires
        m <= n <= fields.len(),
        with_fields(marks, subst, s, metadata, path, fields, n) is Some,
    ensures
        with_fields(marks, subst, s, metadata, path, fields, m) is Some,
    decreases n,
{
    if m < n {
        with_fields_before(marks, subst, s, metadata, path, fields, m, (n - 1) as nat);
    }
}

/// The scopes of implicit bindings.
pub open spec fn scopes_view(scopes: Seq<ImplicitBindings>) -> Seq<Implicits> {
    scopes.map_values(|scope: ImplicitBindings| scope@)
}

/// At least one scope.
pub open spec fn at_least_one(scopes: Seq<Implicits>) -> Seq<Implicits> {
    if scopes.len() == 0 {
        seq![no_implicits()]
    } else {
        scopes
    }
}

/// Keeps the implicit bindings in scope.
pub struct ImplicitResolver<'a, E> {
    metadata: &'a SymbolMap<Metadata>,
    environment: &'a E,
    implicit_bindings: Vec<ImplicitBindings>,
    implicit_vars: Vec<(Symbol, ImplicitBindings)>,
}

impl<'a, E: MetadataEnv> ImplicitResolver<'a, E> {
    /// What is known of values and types.
    pub closed spec fn marks(&self) -> Marks {
        Marks { local: self.metadata@, outer: self.environment.metadata() }
    }

    /// The scopes of implicit bindings.
    pub closed spec fn scopes(&self) -> Seq<Implicits> {
        scopes_view(self.implicit_bindings@)
    }

    /// The bindings that implicit arguments are looked for in.
    pub closed spec fn vars(&self) -> Seq<(Seq<char>, Implicits)> {
        self.implicit_vars@.map_values(|var: (Symbol, ImplicitBindings)| (var.0@, var.1@))
    }

    pub fn new(environment: &'a E, metadata: &'a SymbolMap<Metadata>) -> (res: ImplicitResolver<
        'a,
        E,
    >)
        ensures
            res.marks() == (Marks { local: metadata@, outer: environment.metadata() }),
            res.scopes() == Seq::<Implicits>::empty(),
            res.vars() == Seq::<(Seq<char>, Implicits)>::empty(),
    {
        let res = ImplicitResolver {
            metadata,
            environment,
            implicit_bindings: Vec::new(),
            implicit_vars: Vec::new(),
        };
        assert(res.scopes() =~= Seq::<Implicits>::empty());
        assert(res.vars() =~= Seq::<(Seq<char>, Implicits)>::empty());
        res
    }

    fn ensure_scope(&mut self)
        ensures
            final(self).marks() == old(self).marks(),
            final(self).vars() == old(self).vars(),
            final(self).scopes() == at_least_one(old(self).scopes()),
    {
        if self.implicit_bindings.len() == 0 {
            self.implicit_bindings.push(ImplicitBindings::new());
            assert(self.scopes() =~= seq![no_implicits()]);
        }
    }

    /// The value `id` of the type `typ` with `metadata`, if it becomes an implicit binding: what
    /// defined it and how it is reached, which is by `path` and its name.
    pub fn try_create_implicit(
        &self,
        id: &Symbol,
        metadata: Option<&Metadata>,
        typ: &ArcType,
        path: &Vec<TypedIdent>,
    ) -> (res: Option<(Option<Symbol>, Vec<TypedIdent>)>)
        requires
            self.scopes().len() > 0,
        ensures
            ({
                let metadata = match metadata {
                    Some(metadata) => Some(*metadata),
                    None => None,
                };
                match res {
                    Some((definition, full)) => becomes_implicit(
                        self.marks(),
                        self.scopes().last(),
                        metadata,
                        typ@,
                    ) && opt_name(definition) == definition_of(metadata) && path_view(full@)
                        == path_view(path@).push((id@, typ@)),
                    None => !becomes_implicit(
                        self.marks(),
                        self.scopes().last(),
                        metadata,
                        typ@,
                    ),
                }
            }),
    {
        let mut is_implicit = is_marked(metadata);
        if !is_implicit {
            // Look at the type without any implicit arguments
            let inner = remove_forall(remove_forall(typ).remove_implicit_args());
            if let Some(name) = inner.name() {
                is_implicit = match self.metadata.get(&name) {
                    Some(metadata) => is_marked(Some(metadata)),
                    None => is_marked(self.environment.get_metadata(&name)),
                };
            }
        }
        if !is_implicit {
            return None;
        }
        // If we know what originally defined this value, and that has already been added don't
        // add it again to prevent ambiguities
        let definition = match metadata {
            Some(metadata) => match &metadata.definition {
                Some(definition) => Some(definition.clone()),
                None => None,
            },
            None => None,
        };
        if let Some(definition) = &definition {
            let last = &self.implicit_bindings[self.implicit_bindings.len() - 1];
            if last.defines(definition) {
                return None;
            }
        }
        let mut full = clone_path(path);
        let ghost before = full@;
        full.push(TypedIdent { name: id.clone(), typ: typ.clone() });
        assert(path_view(full@) =~= path_view(before).push((id@, typ@)));
        Some((definition, full))
    }

    fn add_value(
        &mut self,
        subs: &Substitution,
        id: &Symbol,
        metadata: Option<&Metadata>,
        typ: &ArcType,
        path: &Vec<TypedIdent>,
    )
        requires
            old(self).scopes().len() > 0,
            ({
                let metadata = match metadata {
                    Some(metadata) => Some(*metadata),
                    None => None,
                };
                with_value(
                    old(self).marks(),
                    subs@,
                    old(self).scopes().last(),
                    metadata,
                    path_view(path@),
                    id@,
                    typ@,
                ) is Some
            }),
        ensures
            final(self).marks() == old(self).marks(),
            final(self).metadata == old(self).metadata,
            final(self).vars() == old(self).vars(),
            ({
                let metadata = match metadata {
                    Some(metadata) => Some(*metadata),
                    None => None,
                };
                final(self).scopes() == old(self).scopes().update(
                    old(self).scopes().len() - 1,
                    with_value(
                        old(self).marks(),
                        subs@,
                        old(self).scopes().last(),
                        metadata,
                        path_view(path@),
                        id@,
                        typ@,
                    )->0,
                )
            }),
    {
        let ghost scopes = self.scopes();
        match self.try_create_implicit(id, metadata, typ, path) {
            Some((definition, full)) => {
                match self.implicit_bindings.pop() {
                    Some(last) => {
                        let mut last = last;
                        assert(scopes.last() == last@);
                        last.insert(subs, definition, full, typ);
                        self.implicit_bindings.push(last);
                        assert(self.scopes() =~= scopes.update(scopes.len() - 1, last@));
                    },
                    None => {},
                }
            },
            None => {
                assert(self.scopes() =~= scopes.update(scopes.len() - 1, scopes.last()));
            },
        }
    }

    /// Adds the value `id` of the type `typ` if it is an implicit one.
    pub fn on_stack_var(&mut self, subs: &Substitution, id: &Symbol, typ: &ArcType)
        requires
            ({
                let scopes = at_least_one(old(self).scopes());
                with_value(
                    old(self).marks(),
                    subs@,
                    scopes.last(),
                    lookup(old(self).marks().local, id@),
                    Seq::empty(),
                    id@,
                    typ@,
                ) is Some
            }),
        ensures
            final(self).marks() == old(self).marks(),
            final(self).vars() == old(self).vars(),
            ({
                let scopes = at_least_one(old(self).scopes());
                final(self).scopes() == scopes.update(
                    scopes.len() - 1,
                    with_value(
                        old(self).marks(),
                        subs@,
                        scopes.last(),
                        lookup(old(self).marks().local, id@),
                        Seq::empty(),
                        id@,
                        typ@,
                    )->0,
                )
            }),
    {
        self.ensure_scope();
        let metadata = self.metadata.get(id);
        let path: Vec<TypedIdent> = Vec::new();
        assert(path_view(path@) =~= Seq::<(Seq<char>, Ty)>::empty());
        self.add_value(subs, id, metadata, typ, &path);
    }

    /// Adds the fields of the value `id` that are implicit ones, if it is a record. `typ` is its type
    /// and `raw_type` is what the type stands for.
    #[verifier::rlimit(30)]
    pub fn add_implicits_of_record(
        &mut self,
        subs: &Substitution,
        id: &Symbol,
        typ: &ArcType,
        raw_type: &ArcType,
    )
        requires
            raw_type@ is Record ==> ({
                let scopes = at_least_one(old(self).scopes());
                with_fields(
                    old(self).marks(),
                    subs@,
                    scopes.last(),
                    lookup(old(self).marks().local, id@),
                    seq![(id@, typ@)],
                    row_fields(raw_type@),
                    row_fields(raw_type@).len(),
                ) is Some
            }),
        ensures
            final(self).marks() == old(self).marks(),
            final(self).vars() == old(self).vars(),
            ({
                let scopes = at_least_one(old(self).scopes());
                final(self).scopes() == if raw_type@ is Record {
                    scopes.update(
                        scopes.len() - 1,
                        with_fields(
                            old(self).marks(),
                            subs@,
                            scopes.last(),
                            lookup(old(self).marks().local, id@),
                            seq![(id@, typ@)],
                            row_fields(raw_type@),
                            row_fields(raw_type@).len(),
                        )->0,
                    )
                } else {
                    scopes
                }
            }),
    {
        self.ensure_scope();
        match raw_type.as_type() {
            Type::Record(_) => {},
            _ => {
                return;
            },
        }
        let metadata = self.metadata.get(id);
        let ghost known = lookup(self.marks().local, id@);
        let ghost marks = self.marks();
        let ghost scopes = self.scopes();
        let ghost all = row_fields(raw_type@);
        let path = vec![TypedIdent { name: id.clone(), typ: typ.clone() }];
        let ghost start = path_view(path@);
        assert(start =~= seq![(id@, typ@)]);
        let mut iter = row_iter(raw_type);
        let ghost mut i: int = 0;
        assert(all.skip(0) =~= all);
        assert(scopes.update(scopes.len() - 1, scopes.last()) =~= scopes);
        loop
            invariant
                iter.wf(),
                0 <= i <= all.len(),
                all == row_fields(raw_type@),
                iter@ == all.skip(i),
                scopes.len() > 0,
                scopes == at_least_one(old(self).scopes()),
                marks == self.marks(),
                marks == old(self).marks(),
                self.vars() == old(self).vars(),
                raw_type@ is Record,
                start == path_view(path@),
                start == seq![(id@, typ@)],
                known == lookup(marks.local, id@),
                match metadata {
                    Some(metadata) => known == Some(*metadata),
                    None => known is None,
                },
                with_fields(marks, subs@, scopes.last(), known, start, all, all.len()) is Some,
                with_fields(marks, subs@, scopes.last(), known, start, all, i as nat) is Some,
                self.scopes() == scopes.update(
                    scopes.len() - 1,
                    with_fields(marks, subs@, scopes.last(), known, start, all, i as nat)->0,
                ),
            decreases iter@.len(),
        {
            match iter.next() {
                Some(field) => {
                    proof {
                        assert(all.skip(i)[0] == all[i]);
                        assert(all.skip(i).drop_first() =~= all.skip(i + 1));
                        with_fields_before(
                            marks,
                            subs@,
                            scopes.last(),
                            known,
                            start,
                            all,
                            (i + 1) as nat,
                            all.len(),
                        );
                    }
                    let ghost before = self.scopes();
                    let of_field = match metadata {
                        Some(metadata) => metadata.get(field.name.as_str()),
                        None => None,
                    };
                    self.add_value(subs, &field.name, of_field, &field.typ, &path);
                    proof {
                        i = i + 1;
                        let now = with_fields(
                            marks,
                            subs@,
                            scopes.last(),
                            known,
                            start,
                            all,
                            i as nat,
                        )->0;
                        assert(self.scopes() =~= scopes.update(scopes.len() - 1, now));
                    }
                },
                None => {
                    return;
                },
            }
        }
    }

    /// A new implicit argument, which is looked for among the bindings in scope.
    pub fn make_implicit_ident(&mut self) -> (res: Symbol)
        requires
            old(self).scopes().len() > 0,
            old(self).vars().len() < u64::MAX,
        ensures
            final(self).marks() == old(self).marks(),
            final(self).scopes() == old(self).scopes(),
            res@ == "implicit_arg"@ + decimal(old(self).vars().len()),
            final(self).vars() == old(self).vars().push((res@, old(self).scopes().last())),
    {
        let count: u64 = self.implicit_vars.len() as u64;
        let name = Symbol::new(
            crate::text::join(
                "implicit_arg",
                crate::text::decimal_string(count).as_str(),
            ),
        );
        let implicits = self.implicit_bindings[self.implicit_bindings.len() - 1].duplicate();
        self.implicit_vars.push((name.clone(), implicits));
        assert(self.vars() =~= old(self).vars().push((name@, old(self).scopes().last())));
        name
    }

    pub fn enter_scope(&mut self)
        ensures
            final(self).marks() == old(self).marks(),
            final(self).vars() == old(self).vars(),
            final(self).scopes() == old(self).scopes().push(at_least_one(old(self).scopes()).last()),
    {
        let bindings = if self.implicit_bindings.len() == 0 {
            ImplicitBindings::new()
        } else {
            self.implicit_bindings[self.implicit_bindings.len() - 1].duplicate()
        };
        self.implicit_bindings.push(bindings);
        assert(self.scopes() =~= old(self).scopes().push(bindings@));
    }

    pub fn exit_scope(&mut self)
        ensures
            final(self).marks() == old(self).marks(),
            final(self).vars() == old(self).vars(),
            final(self).scopes() == if old(self).scopes().len() == 0 {
                old(self).scopes()
            } else {
                old(self).scopes().drop_last()
            },
    {
        let _ = self.implicit_bindings.pop();
        assert(old(self).scopes().len() > 0 ==> self.scopes() =~= old(self).scopes().drop_last());
    }
}

/// Leaving a scope that was entered brings back the bindings that were in scope before.
pub proof fn leaving_undoes_entering(scopes: Seq<Implicits>)
    ensures
        scopes.push(at_least_one(scopes).last()).drop_last() == scopes,
{
    assert(scopes.push(at_least_one(scopes).last()).drop_last() =~= scopes);
}

/// A binding is found by the names that it was inserted by.
pub proof fn inserted_is_found(
    at: Map<Seq<Seq<char>>, Seq<BindingTy>>,
    keys: Seq<Seq<char>>,
    binding: BindingTy,
)
    ensures
        found_by(inserted(at, keys, binding), keys, keys.len()).len() > 0,
        found_by(inserted(at, keys, binding), keys, keys.len()).last() == binding,
{
    assert(keys.take(keys.len() as int) =~= keys);
    assert(belongs(keys, keys));
}

} // verus!
