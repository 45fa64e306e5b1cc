//! Rewriting of types.

use std::sync::Arc;
use vstd::prelude::*;
use crate::symbol::Symbol;
use crate::symbol_map::{names, SymbolMap};
use crate::types::flags::{any_field_has_flag, any_has_flag, has_flag, HAS_GENERICS, HAS_IDENTS};
use crate::types::model::{parts_decrease, AliasDataTy, AliasTy, FieldTy, GenericTy, Ty};
use crate::types::{
    app_ty, clone_generics, clone_type_fields, fields_view, forall_ty, generics_view, group_view,
    types_view, Alias, AliasData, AliasRef, ArcType, Field, Generic, Type,
};

verus! {

/// Calls `f` on each of `types`. Where `f` returns `Some` the type is replaced; if it never does,
/// nothing is returned.
pub fn walk_move_types<T: Clone, F: Fn(&T) -> Option<T>>(types: &[T], f: F) -> (res: Option<Vec<T>>)
    requires
        forall|i: int| 0 <= i < types@.len() ==> #[trigger] call_requires(f, (&types@[i],)),
        forall|i: int| 0 <= i < types@.len() ==> #[trigger] call_requires(T::clone, (&types@[i],)),
    ensures
        match res {
            Some(out) => {
                &&& out@.len() == types@.len()
                &&& exists|i: int|
                    0 <= i < out@.len() && call_ensures(f, (&types@[i],), Some(#[trigger] out@[i]))
                &&& forall|i: int|
                    0 <= i < out@.len() ==> call_ensures(f, (&types@[i],), Some(#[trigger] out@[i]))
                        || (call_ensures(f, (&types@[i],), None) && cloned(types@[i], out@[i]))
            },
            None => forall|i: int|
                0 <= i < types@.len() ==> #[trigger] call_ensures(f, (&types@[i],), None::<T>),
        },
{
    let mut out: Vec<T> = Vec::new();
    let mut replaced = false;
    let ghost mut at: int = 0;
    let mut i: usize = 0;
    while i < types.len()
        invariant
            i <= types@.len(),
            out@.len() == i,
            forall|i: int| 0 <= i < types@.len() ==> #[trigger] call_requires(f, (&types@[i],)),
            forall|i: int|
                0 <= i < types@.len() ==> #[trigger] call_requires(T::clone, (&types@[i],)),
            replaced ==> 0 <= at < i && call_ensures(f, (&types@[at],), Some(out@[at])),
            !replaced ==> forall|j: int|
                0 <= j < i ==> #[trigger] call_ensures(f, (&types@[j],), None::<T>),
            forall|j: int|
                0 <= j < i ==> call_ensures(f, (&types@[j],), Some(#[trigger] out@[j])) || (
                call_ensures(f, (&types@[j],), None) && cloned(types@[j], out@[j])),
        decreases types@.len() - i,
    {
        match f(&types[i]) {
            Some(typ) => {
                out.push(typ);
                replaced = true;
                proof {
                    at = i as int;
                }
            },
            None => {
                out.push(types[i].clone());
            },
        }
        i += 1;
    }
    if replaced {
        proof {
            let x = out@[at];
            assert(call_ensures(f, (&types@[at],), Some(x)));
            assert(exists|i: int|
                    0 <= i < out@.len() && call_ensures(f, (&types@[i],), Some(#[trigger] out@[i])));
            assert(forall|i: int|
                    0 <= i < out@.len() ==> call_ensures(f, (&types@[i],), Some(#[trigger] out@[i]))
                        || (call_ensures(f, (&types@[i],), None) && cloned(types@[i], out@[i])));
        }
        Some(out)
    } else {
        None
    }
}

/// What to replace in a type.
pub enum Rewrite {
    /// Parameters, by the types that their names are mapped to.
    Generics(Map<Seq<char>, Ty>),
    /// Identifiers, by the aliases of a group that they name.
    Idents(Seq<AliasDataTy>),
}

/// The position of the first alias in `group` that is named `name`, from `from` on.
pub open spec fn find_alias(group: Seq<AliasDataTy>, name: Seq<char>, from: int) -> Option<int>
    decreases group.len() - from,
{
    if from < 0 || from >= group.len() {
        None
    } else if group[from].name == name {
        Some(from)
    } else {
        find_alias(group, name, from + 1)
    }
}

/// What `t` as a whole is replaced by.
pub open spec fn replacement(t: Ty, rewrite: Rewrite) -> Option<Ty> {
    match (t, rewrite) {
        (Ty::Generic(generic), Rewrite::Generics(map)) => if map.dom().contains(generic.id) {
            Some(map[generic.id])
        } else {
            None
        },
        (Ty::Ident(id), Rewrite::Idents(group)) => match find_alias(group, id, 0) {
            Some(index) => Some(Ty::Alias(AliasTy { index, group })),
            None => None,
        },
        _ => None,
    }
}

pub open spec fn generic_names(params: Seq<GenericTy>) -> Set<Seq<char>> {
    Set::new(|name: Seq<char>| exists|i: int| 0 <= i < params.len() && (#[trigger] params[i]).id == name)
}

/// What to replace in the scope of `params`: a parameter of an inner scope hides an outer one.
pub open spec fn inside(rewrite: Rewrite, params: Seq<GenericTy>) -> Rewrite {
    match rewrite {
        Rewrite::Generics(map) => Rewrite::Generics(map.remove_keys(generic_names(params))),
        _ => rewrite,
    }
}

/// `t` quantified over `params` again. Where identifiers are replaced, a quantifier without
/// parameters is left out.
pub open spec fn quantified(rewrite: Rewrite, params: Seq<GenericTy>, t: Ty) -> Ty {
    match rewrite {
        Rewrite::Generics(_) => Ty::Forall(params, Box::new(t)),
        Rewrite::Idents(_) => forall_ty(params, t),
    }
}

/// The new type if there is one, else the old one.
pub open spec fn new_or(new: Option<Ty>, old: Ty) -> Ty {
    match new {
        Some(new) => new,
        None => old,
    }
}

/// `t` after `rewrite`, or nothing if there is nothing to replace in it.
pub open spec fn rewritten(t: Ty, rewrite: Rewrite) -> Option<Ty>
    decreases t,
{
    match replacement(t, rewrite) {
        Some(new) => Some(new),
        None => match t {
            Ty::Forall(params, inner) => match rewritten(*inner, inside(rewrite, params)) {
                Some(new) => Some(quantified(rewrite, params, new)),
                None => None,
            },
            Ty::Function(arg_type, arg, ret) => {
                let (new_arg, new_ret) = (rewritten(*arg, rewrite), rewritten(*ret, rewrite));
                if new_arg is Some || new_ret is Some {
                    Some(
                        Ty::Function(
                            arg_type,
                            Box::new(new_or(new_arg, *arg)),
                            Box::new(new_or(new_ret, *ret)),
                        ),
                    )
                } else {
                    None
                }
            },
            Ty::App(f, args) => {
                let new_f = rewritten(*f, rewrite);
                if new_f is Some || any_rewritten(args, rewrite) {
                    Some(app_ty(new_or(new_f, *f), all_rewritten(args, rewrite)))
                } else {
                    None
                }
            },
            Ty::Record(row) => match rewritten(*row, rewrite) {
                Some(new) => Some(Ty::Record(Box::new(new))),
                None => None,
            },
            Ty::Variant(row) => match rewritten(*row, rewrite) {
                Some(new) => Some(Ty::Variant(Box::new(new))),
                None => None,
            },
            Ty::Effect(row) => match rewritten(*row, rewrite) {
                Some(new) => Some(Ty::Effect(Box::new(new))),
                None => None,
            },
            Ty::ExtendRow(fields, rest) => {
                let new_rest = rewritten(*rest, rewrite);
                if new_rest is Some || any_field_rewritten(fields, rewrite) {
                    Some(
                        Ty::ExtendRow(
                            all_fields_rewritten(fields, rewrite),
                            Box::new(new_or(new_rest, *rest)),
                        ),
                    )
                } else {
                    None
                }
            },
            Ty::ExtendTypeRow(types, rest) => match rewritten(*rest, rewrite) {
                Some(new) => Some(Ty::ExtendTypeRow(types, Box::new(new))),
                None => None,
            },
            _ => None,
        },
    }
}

/// Whether there is something to replace in one of `types`.
pub open spec fn any_rewritten(types: Seq<Ty>, rewrite: Rewrite) -> bool
    decreases types,
{
    exists|i: int| 0 <= i < types.len() && rewritten(#[trigger] types[i], rewrite) is Some
}

/// `types` after `rewrite`.
pub open spec fn all_rewritten(types: Seq<Ty>, rewrite: Rewrite) -> Seq<Ty>
    decreases types,
{
    Seq::new(
        types.len(),
        |i: int|
            if 0 <= i < types.len() {
                new_or(rewritten(types[i], rewrite), types[i])
            } else {
                Ty::Hole
            },
    )
}

/// Whether there is something to replace in one of `fields`.
pub open spec fn any_field_rewritten(fields: Seq<FieldTy>, rewrite: Rewrite) -> bool
    decreases fields,
{
    exists|i: int| 0 <= i < fields.len() && rewritten((#[trigger] fields[i]).typ, rewrite) is Some
}

/// `fields` after `rewrite`.
pub open spec fn all_fields_rewritten(fields: Seq<FieldTy>, rewrite: Rewrite) -> Seq<FieldTy>
    decreases fields,
{
    Seq::new(
        fields.len(),
        |i: int|
            if 0 <= i < fields.len() {
                FieldTy {
                    name: fields[i].name,
                    typ: new_or(rewritten(fields[i].typ, rewrite), fields[i].typ),
                }
            } else {
                FieldTy { name: Seq::empty(), typ: Ty::Hole }
            },
    )
}

/// The sort of type that `rewrite` replaces.
pub open spec fn rewrite_mask(rewrite: Rewrite) -> u8 {
    match rewrite {
        Rewrite::Generics(_) => HAS_GENERICS,
        Rewrite::Idents(_) => HAS_IDENTS,
    }
}

/// In a type in which the sort of type that is replaced does not occur there is nothing to replace.
pub proof fn nothing_to_rewrite(t: Ty, rewrite: Rewrite)
    requires
        !has_flag(t, rewrite_mask(rewrite)),
    ensures
        rewritten(t, rewrite) is None,
    decreases t,
{
    assert(HAS_GENERICS & HAS_GENERICS != 0) by (bit_vector);
    assert(HAS_IDENTS & HAS_IDENTS != 0) by (bit_vector);
    let mask = rewrite_mask(rewrite);
    match t {
        Ty::Forall(params, inner) => {
            nothing_to_rewrite(*inner, inside(rewrite, params));
        },
        Ty::Function(_, arg, ret) => {
            nothing_to_rewrite(*arg, rewrite);
            nothing_to_rewrite(*ret, rewrite);
        },
        Ty::App(f, args) => {
            nothing_to_rewrite(*f, rewrite);
            assert(!any_has_flag(args, mask));
            assert forall|i: int| 0 <= i < args.len() implies rewritten(
                #[trigger] args[i],
                rewrite,
            ) is None by {
                assert(decreases_to!(args => args[i]));
                nothing_to_rewrite(args[i], rewrite);
            }
            assert(!any_rewritten(args, rewrite));
        },
        Ty::Record(row) | Ty::Variant(row) | Ty::Effect(row) => {
            nothing_to_rewrite(*row, rewrite);
        },
        Ty::ExtendRow(fields, rest) => {
            nothing_to_rewrite(*rest, rewrite);
            assert(!any_field_has_flag(fields, mask));
            assert forall|i: int| 0 <= i < fields.len() implies rewritten(
                (#[trigger] fields[i]).typ,
                rewrite,
            ) is None by {
                assert(decreases_to!(fields => fields[i]));
                nothing_to_rewrite(fields[i].typ, rewrite);
            }
            assert(!any_field_rewritten(fields, rewrite));
        },
        Ty::ExtendTypeRow(_, rest) => {
            nothing_to_rewrite(*rest, rewrite);
        },
        _ => {},
    }
}

/// Where no parameter is mapped to a type there is nothing to replace.
pub proof fn no_generics_to_rewrite(t: Ty)
    ensures
        rewritten(t, Rewrite::Generics(Map::empty())) is None,
    decreases t,
{
    let rewrite = Rewrite::Generics(Map::empty());
    match t {
        Ty::Forall(params, inner) => {
            assert(Map::<Seq<char>, Ty>::empty().remove_keys(generic_names(params))
                =~= Map::<Seq<char>, Ty>::empty());
            no_generics_to_rewrite(*inner);
        },
        Ty::Function(_, arg, ret) => {
            no_generics_to_rewrite(*arg);
            no_generics_to_rewrite(*ret);
        },
        Ty::App(f, args) => {
            no_generics_to_rewrite(*f);
            assert forall|i: int| 0 <= i < args.len() implies rewritten(
                #[trigger] args[i],
                rewrite,
            ) is None by {
                assert(decreases_to!(args => args[i]));
                no_generics_to_rewrite(args[i]);
            }
            assert(!any_rewritten(args, rewrite));
        },
        Ty::Record(row) | Ty::Variant(row) | Ty::Effect(row) => {
            no_generics_to_rewrite(*row);
        },
        Ty::ExtendRow(fields, rest) => {
            no_generics_to_rewrite(*rest);
            assert forall|i: int| 0 <= i < fields.len() implies rewritten(
                (#[trigger] fields[i]).typ,
                rewrite,
            ) is None by {
                assert(decreases_to!(fields => fields[i]));
                no_generics_to_rewrite(fields[i].typ);
            }
            assert(!any_field_rewritten(fields, rewrite));
        },
        Ty::ExtendTypeRow(_, rest) => {
            no_generics_to_rewrite(*rest);
        },
        _ => {},
    }
}

pub open spec fn opt_view(typ: Option<ArcType>) -> Option<Ty> {
    match typ {
        Some(typ) => Some(typ@),
        None => None,
    }
}

/// The types that the names in `map` are mapped to.
pub open spec fn map_view(map: Map<Seq<char>, ArcType>) -> Map<Seq<char>, Ty> {
    map.map_values(|t: ArcType| t@)
}

/// What to replace in a type.
pub enum TypeVisitor<'a> {
    /// Parameters, by the types that their names are mapped to.
    Generics(&'a SymbolMap<ArcType>),
    /// Identifiers, by the aliases of a group that they name.
    Idents(&'a Arc<Vec<AliasData>>),
}

impl<'a> View for TypeVisitor<'a> {
    type V = Rewrite;

    open spec fn view(&self) -> Rewrite {
        match self {
            TypeVisitor::Generics(map) => Rewrite::Generics(map_view(map@)),
            TypeVisitor::Idents(group) => Rewrite::Idents(group_view(group@)),
        }
    }
}

fn generic_ids(params: &Vec<Generic>) -> (res: Vec<Symbol>)
    ensures
        names(res@) == generic_names(generics_view(params@)),
{
    let mut res: Vec<Symbol> = Vec::new();
    let mut i: usize = 0;
    while i < params.len()
        invariant
            i <= params@.len(),
            res@.len() == i,
            forall|j: int| 0 <= j < i ==> (#[trigger] res@[j])@ == params@[j].id@,
        decreases params@.len() - i,
    {
        res.push(params[i].id.clone());
        i += 1;
    }
    proof {
        let all = generics_view(params@);
        assert forall|name: Seq<char>|
            names(res@).contains(name) == generic_names(all).contains(name) by {
            if names(res@).contains(name) {
                let j = choose|j: int| 0 <= j < res@.len() && (#[trigger] res@[j])@ == name;
                assert(all[j].id == name);
            }
            if generic_names(all).contains(name) {
                let j = choose|j: int| 0 <= j < all.len() && (#[trigger] all[j]).id == name;
                assert(res@[j]@ == name);
            }
        }
        assert(names(res@) =~= generic_names(all));
    }
    res
}

fn alias_position(group: &Vec<AliasData>, name: &Symbol) -> (res: Option<usize>)
    ensures
        match res {
            Some(i) => i < group@.len() && find_alias(group_view(group@), name@, 0) == Some(
                i as int,
            ),
            None => find_alias(group_view(group@), name@, 0) is None,
        },
{
    let mut i: usize = 0;
    while i < group.len()
        invariant
            i <= group@.len(),
            find_alias(group_view(group@), name@, i as int) == find_alias(
                group_view(group@),
                name@,
                0,
            ),
        decreases group@.len() - i,
    {
        assert(group_view(group@)[i as int] == group@[i as int]@);
        if *group[i].name() == *name {
            return Some(i);
        }
        i += 1;
    }
    None
}

impl<'a> TypeVisitor<'a> {
    /// What `typ` as a whole is replaced by.
    fn replace(&self, typ: &ArcType) -> (res: Option<ArcType>)
        ensures
            opt_view(res) == replacement(typ@, self@),
    {
        match self {
            TypeVisitor::Generics(map) => match typ.as_type() {
                Type::Generic(generic) => match map.get(&generic.id) {
                    Some(typ) => Some(typ.clone()),
                    None => None,
                },
                _ => None,
            },
            TypeVisitor::Idents(group) => match typ.as_type() {
                Type::Ident(id) => match alias_position(group, id) {
                    Some(index) => Some(
                        ArcType::new(Type::Alias(AliasRef::new(index, (*group).clone()))),
                    ),
                    None => None,
                },
                _ => None,
            },
        }
    }

    /// The sort of type that is replaced.
    fn mask(&self) -> (res: u8)
        ensures
            res == rewrite_mask(self@),
    {
        match self {
            TypeVisitor::Generics(_) => HAS_GENERICS,
            TypeVisitor::Idents(_) => HAS_IDENTS,
        }
    }
}

fn new_or_clone(new: Option<ArcType>, old: &ArcType) -> (res: ArcType)
    ensures
        res@ == new_or(opt_view(new), old@),
{
    match new {
        Some(new) => new,
        None => old.clone(),
    }
}

/// Walks through `typ` and replaces what `f` says. Returns nothing if there was nothing to replace.
#[verifier::rlimit(30)]
pub fn walk_move_type_opt(typ: &ArcType, f: &TypeVisitor) -> (res: Option<ArcType>)
    ensures
        opt_view(res) == rewritten(typ@, f@),
    decreases typ@, 1nat,
{
    if !typ.flags().has(f.mask()) {
        proof {
            nothing_to_rewrite(typ@, f@);
        }
        return None;
    }
    if let Some(new) = f.replace(typ) {
        return Some(new);
    }
    proof {
        parts_decrease(typ@);
    }
    match typ.as_type() {
        Type::Forall(params, inner) => {
            match f {
                TypeVisitor::Generics(map) => {
                    let ids = generic_ids(params);
                    let left = map.without(&ids);
                    assert(map_view(left@) =~= map_view(map@).remove_keys(
                        generic_names(generics_view(params@)),
                    ));
                    match walk_move_type_opt(inner, &TypeVisitor::Generics(&left)) {
                        Some(new) => Some(ArcType::new(Type::Forall(clone_generics(params), new))),
                        None => None,
                    }
                },
                TypeVisitor::Idents(_) => match walk_move_type_opt(inner, f) {
                    Some(new) => Some(Type::forall_(clone_generics(params), new)),
                    None => None,
                },
            }
        },
        Type::Function(arg_type, arg, ret) => {
            let new_arg = walk_move_type_opt(arg, f);
            let new_ret = walk_move_type_opt(ret, f);
            if new_arg.is_some() || new_ret.is_some() {
                let arg = new_or_clone(new_arg, arg);
                let ret = new_or_clone(new_ret, ret);
                Some(ArcType::new(Type::Function(*arg_type, arg, ret)))
            } else {
                None
            }
        },
        Type::App(id, args) => {
            let (new_args, replaced) = walk_move_vec(args, f);
            let new_id = walk_move_type_opt(id, f);
            if new_id.is_some() || replaced {
                Some(Type::app(new_or_clone(new_id, id), new_args))
            } else {
                None
            }
        },
        Type::Record(row) => match walk_move_type_opt(row, f) {
            Some(row) => Some(ArcType::new(Type::Record(row))),
            None => None,
        },
        Type::Variant(row) => match walk_move_type_opt(row, f) {
            Some(row) => Some(ArcType::new(Type::Variant(row))),
            None => None,
        },
        Type::Effect(row) => match walk_move_type_opt(row, f) {
            Some(row) => Some(ArcType::new(Type::Effect(row))),
            None => None,
        },
        Type::ExtendRow { fields, rest } => {
            let (new_fields, replaced) = walk_move_fields(fields, f);
            let new_rest = walk_move_type_opt(rest, f);
            if new_rest.is_some() || replaced {
                let rest = new_or_clone(new_rest, rest);
                Some(ArcType::new(Type::ExtendRow { fields: new_fields, rest }))
            } else {
                None
            }
        },
        Type::ExtendTypeRow { types, rest } => match walk_move_type_opt(rest, f) {
            Some(rest) => Some(
                ArcType::new(Type::ExtendTypeRow { types: clone_type_fields(types), rest }),
            ),
            None => None,
        },
        _ => None,
    }
}

fn walk_move_vec(types: &Vec<ArcType>, f: &TypeVisitor) -> (res: (Vec<ArcType>, bool))
    ensures
        types_view(res.0@) == all_rewritten(types_view(types@), f@),
        res.1 == any_rewritten(types_view(types@), f@),
    decreases types_view(types@), 0nat,
{
    let ghost all = types_view(types@);
    let mut out: Vec<ArcType> = Vec::new();
    let mut replaced = false;
    let mut i: usize = 0;
    while i < types.len()
        invariant
            i <= types@.len(),
            all == types_view(types@),
            out@.len() == i,
            replaced == exists|j: int| 0 <= j < i && rewritten(#[trigger] all[j], f@) is Some,
            forall|j: int|
                0 <= j < i ==> (#[trigger] out@[j])@ == new_or(rewritten(all[j], f@), all[j]),
        decreases types@.len() - i,
    {
        assert(all[i as int] == types@[i as int]@);
        assert(decreases_to!(all => all[i as int]));
        let new = walk_move_type_opt(&types[i], f);
        if new.is_some() {
            replaced = true;
        }
        out.push(new_or_clone(new, &types[i]));
        i += 1;
    }
    assert(types_view(out@) =~= all_rewritten(all, f@));
    (out, replaced)
}

fn walk_move_fields(fields: &Vec<Field>, f: &TypeVisitor) -> (res: (Vec<Field>, bool))
    ensures
        fields_view(res.0@) == all_fields_rewritten(fields_view(fields@), f@),
        res.1 == any_field_rewritten(fields_view(fields@), f@),
    decreases fields_view(fields@), 0nat,
{
    let ghost all = fields_view(fields@);
    let mut out: Vec<Field> = Vec::new();
    let mut replaced = false;
    let mut i: usize = 0;
    while i < fields.len()
        invariant
            i <= fields@.len(),
            all == fields_view(fields@),
            out@.len() == i,
            replaced == exists|j: int| 0 <= j < i && rewritten((#[trigger] all[j]).typ, f@) is Some,
            forall|j: int|
                0 <= j < i ==> (#[trigger] out@[j]).name@ == all[j].name && out@[j].typ@ == new_or(
                    rewritten(all[j].typ, f@),
                    all[j].typ,
                ),
        decreases fields@.len() - i,
    {
        assert(all[i as int].typ == fields@[i as int].typ@);
        assert(decreases_to!(all => all[i as int]));
        let new = walk_move_type_opt(&fields[i].typ, f);
        if new.is_some() {
            replaced = true;
        }
        out.push(Field { name: fields[i].name.clone(), typ: new_or_clone(new, &fields[i].typ) });
        i += 1;
    }
    assert(fields_view(out@) =~= all_fields_rewritten(all, f@));
    (out, replaced)
}

impl AliasRef {
    /// The type that is being aliased, with the names of the group resolved to the aliases that
    /// they stand for.
    pub fn typ(&self) -> (res: ArcType)
        ensures
            res@ == alias_type(self@),
    {
        let typ = self.data().unresolved_type();
        match walk_move_type_opt(typ, &TypeVisitor::Idents(self.group())) {
            Some(new) => new,
            None => typ.clone(),
        }
    }
}

impl Alias {
    /// The type that is being aliased, with the names of the group resolved to the aliases that
    /// they stand for.
    pub fn typ(&self) -> (res: ArcType)
        ensures
            self@ matches Ty::Alias(alias) && res@ == alias_type(alias),
    {
        self.as_ref().typ()
    }
}

/// The type that `alias` stands for, with the names of its group resolved to aliases.
pub open spec fn alias_type(alias: AliasTy) -> Ty {
    new_or(rewritten(alias.data().typ, Rewrite::Idents(alias.group)), alias.data().typ)
}

impl ArcType {
    /// The type with the parameters in `named_variables` replaced, or nothing if there is nothing
    /// to replace.
    pub fn replace_generics(&self, named_variables: &SymbolMap<ArcType>) -> (res: Option<ArcType>)
        ensures
            opt_view(res) == rewritten(self@, Rewrite::Generics(map_view(named_variables@))),
    {
        if named_variables.is_empty() {
            proof {
                assert(map_view(named_variables@) =~= Map::<Seq<char>, Ty>::empty());
                no_generics_to_rewrite(self@);
            }
            None
        } else {
            self.replace_generics_(named_variables)
        }
    }

    fn replace_generics_(&self, named_variables: &SymbolMap<ArcType>) -> (res: Option<ArcType>)
        ensures
            opt_view(res) == rewritten(self@, Rewrite::Generics(map_view(named_variables@))),
    {
        walk_move_type_opt(self, &TypeVisitor::Generics(named_variables))
    }
}

} // verus!
