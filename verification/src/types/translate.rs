//! Deep copies of types.

use std::sync::Arc;
use vstd::pervasive::unreached;
use vstd::prelude::*;
use crate::types::model::{parts_decrease, AliasDataTy, AliasTy, FieldTy, Ty};
use crate::types::{
    clone_generics, clone_symbols, fields_view, group_view, row_ty, type_fields_view, type_row_ty,
    types_view, Alias, AliasData, AliasRef, ArcType, Field, Skolem, Type, TypeField,
};

verus! {

/// `t` without the row extensions that add nothing.
pub open spec fn translated(t: Ty) -> Ty
    decreases t,
{
    match t {
        Ty::Function(arg_type, arg, ret) => Ty::Function(
            arg_type,
            Box::new(translated(*arg)),
            Box::new(translated(*ret)),
        ),
        Ty::App(f, args) => Ty::App(Box::new(translated(*f)), translated_all(args)),
        Ty::Record(row) => Ty::Record(Box::new(translated(*row))),
        Ty::Variant(row) => Ty::Variant(Box::new(translated(*row))),
        Ty::Effect(row) => Ty::Effect(Box::new(translated(*row))),
        Ty::Forall(params, inner) => Ty::Forall(params, Box::new(translated(*inner))),
        Ty::ExtendRow(fields, rest) => row_ty(translated_fields(fields), translated(*rest)),
        Ty::ExtendTypeRow(types, rest) => type_row_ty(translated_fields(types), translated(*rest)),
        Ty::Alias(alias) => Ty::Alias(
            AliasTy { index: alias.index, group: translated_group(alias.group) },
        ),
        _ => t,
    }
}

pub open spec fn translated_all(types: Seq<Ty>) -> Seq<Ty>
    decreases types,
{
    Seq::new(
        types.len(),
        |i: int|
            if 0 <= i < types.len() {
                translated(types[i])
            } else {
                Ty::Hole
            },
    )
}

pub open spec fn translated_fields(fields: Seq<FieldTy>) -> Seq<FieldTy>
    decreases fields,
{
    Seq::new(
        fields.len(),
        |i: int|
            if 0 <= i < fields.len() {
                FieldTy { name: fields[i].name, typ: translated(fields[i].typ) }
            } else {
                FieldTy { name: Seq::empty(), typ: Ty::Hole }
            },
    )
}

pub open spec fn translated_group(group: Seq<AliasDataTy>) -> Seq<AliasDataTy>
    decreases group,
{
    Seq::new(
        group.len(),
        |i: int|
            if 0 <= i < group.len() {
                AliasDataTy {
                    name: group[i].name,
                    params: group[i].params,
                    typ: translated(group[i].typ),
                    is_implicit: group[i].is_implicit,
                }
            } else {
                arbitrary()
            },
    )
}

/// The definition of an alias with `translate` applied to the type that it aliases.
pub fn translate_alias<F: Fn(&ArcType) -> ArcType>(alias: &AliasData, translate: F) -> (res:
    AliasData)
    requires
        forall|typ: &ArcType| typ@ == alias@.typ ==> #[trigger] call_requires(translate, (typ,)),
    ensures
        res@.name == alias@.name,
        res@.params == alias@.params,
        res@.is_implicit == alias@.is_implicit,
        exists|from: &ArcType, to: ArcType|
            from@ == alias@.typ && to@ == res@.typ && #[trigger] call_ensures(
                translate,
                (from,),
                to,
            ),
{
    let from = alias.unresolved_type();
    let to = translate(from);
    let res = alias.with_type(to);
    assert(call_ensures(translate, (from,), to));
    res
}

/// A copy of `typ` that shares nothing with it. Row extensions without fields are left out.
pub fn translate_type(typ: &ArcType) -> (res: ArcType)
    ensures
        res@ == translated(typ@),
    decreases typ@, 1nat,
{
    proof {
        parts_decrease(typ@);
    }
    match typ.as_type() {
        Type::Function(arg_type, arg, ret) => {
            let arg = translate_type(arg);
            let ret = translate_type(ret);
            ArcType::new(Type::Function(*arg_type, arg, ret))
        },
        Type::App(f, args) => {
            let f = translate_type(f);
            ArcType::new(Type::App(f, translate_types(args)))
        },
        Type::Record(row) => ArcType::new(Type::Record(translate_type(row))),
        Type::Variant(row) => ArcType::new(Type::Variant(translate_type(row))),
        Type::Effect(row) => ArcType::new(Type::Effect(translate_type(row))),
        Type::Forall(params, typ) => ArcType::new(
            Type::Forall(clone_generics(params), translate_type(typ)),
        ),
        Type::Skolem(skolem) => Type::skolem(skolem.clone()),
        Type::ExtendRow { fields, rest } => {
            let rest = translate_type(rest);
            Type::extend_row(translate_fields(fields), rest)
        },
        Type::ExtendTypeRow { types, rest } => {
            let rest = translate_type(rest);
            Type::extend_type_row(translate_type_fields(types), rest)
        },
        Type::Hole => Type::hole(),
        Type::Opaque => Type::opaque(),
        Type::Error => Type::error(),
        Type::Builtin(builtin) => Type::builtin(*builtin),
        Type::Variable(var) => Type::variable(var.clone()),
        Type::Generic(gen) => Type::generic(gen.clone()),
        Type::Ident(id) => Type::ident(id.clone()),
        Type::Projection(ids) => Type::projection(clone_symbols(ids)),
        Type::Alias(alias) => ArcType::new(Type::Alias(translate_alias_ref(alias))),
        Type::EmptyRow => Type::empty_row(),
    }
}

fn translate_types(types: &Vec<ArcType>) -> (res: Vec<ArcType>)
    ensures
        types_view(res@) == translated_all(types_view(types@)),
    decreases types_view(types@), 0nat,
{
    let ghost all = types_view(types@);
    let mut out: Vec<ArcType> = Vec::new();
    let mut i: usize = 0;
    while i < types.len()
        invariant
            i <= types@.len(),
            all == types_view(types@),
            out@.len() == i,
            forall|j: int| 0 <= j < i ==> (#[trigger] out@[j])@ == translated(all[j]),
        decreases types@.len() - i,
    {
        assert(all[i as int] == types@[i as int]@);
        assert(decreases_to!(all => all[i as int]));
        out.push(translate_type(&types[i]));
        i += 1;
    }
    assert(types_view(out@) =~= translated_all(all));
    out
}

fn translate_fields(fields: &Vec<Field>) -> (res: Vec<Field>)
    ensures
        fields_view(res@) == translated_fields(fields_view(fields@)),
    decreases fields_view(fields@), 0nat,
{
    let ghost all = fields_view(fields@);
    let mut out: Vec<Field> = Vec::new();
    let mut i: usize = 0;
    while i < fields.len()
        invariant
            i <= fields@.len(),
            all == fields_view(fields@),
            out@.len() == i,
            forall|j: int|
                0 <= j < i ==> (#[trigger] out@[j]).name@ == all[j].name && out@[j].typ@
                    == translated(all[j].typ),
        decreases fields@.len() - i,
    {
        assert(all[i as int].typ == fields@[i as int].typ@);
        assert(decreases_to!(all => all[i as int]));
        let typ = translate_type(&fields[i].typ);
        out.push(Field { name: fields[i].name.clone(), typ });
        i += 1;
    }
    assert(fields_view(out@) =~= translated_fields(all));
    out
}

fn translate_type_fields(types: &Vec<TypeField>) -> (res: Vec<TypeField>)
    ensures
        type_fields_view(res@) == translated_fields(type_fields_view(types@)),
    decreases type_fields_view(types@), 0nat,
{
    let ghost all = type_fields_view(types@);
    let mut out: Vec<TypeField> = Vec::new();
    let mut i: usize = 0;
    while i < types.len()
        invariant
            i <= types@.len(),
            all == type_fields_view(types@),
            out@.len() == i,
            forall|j: int|
                0 <= j < i ==> (#[trigger] out@[j]).name@ == all[j].name && out@[j].typ@
                    == translated(all[j].typ),
        decreases types@.len() - i,
    {
        assert(all[i as int].typ == types@[i as int].typ@);
        assert(decreases_to!(all => all[i as int]));
        let alias = types[i].typ.as_ref();
        proof {
            parts_decrease(all[i as int].typ);
        }
        let typ = Alias::from_ref(translate_alias_ref(alias));
        out.push(TypeField { name: types[i].name.clone(), typ });
        i += 1;
    }
    assert(type_fields_view(out@) =~= translated_fields(all));
    out
}

fn translate_alias_ref(alias: &AliasRef) -> (res: AliasRef)
    ensures
        res@ == (AliasTy { index: alias@.index, group: translated_group(alias@.group) }),
    decreases alias@.group, 1nat,
{
    let group = alias.group();
    let ghost all = alias@.group;
    let mut out: Vec<AliasData> = Vec::new();
    let mut i: usize = 0;
    assert(all == group_view(group@));
    while i < group.len()
        invariant
            i <= group@.len(),
            all == alias@.group,
            all == group_view(group@),
            out@.len() == i,
            forall|j: int| 0 <= j < i ==> (#[trigger] out@[j])@ == translated_group(all)[j],
        decreases group@.len() - i,
    {
        assert(all[i as int] == group@[i as int]@);
        assert(decreases_to!(all => all[i as int]));
        let typ = translate_type(group[i].unresolved_type());
        out.push(group[i].with_type(typ));
        i += 1;
    }
    assert(group_view(out@) =~= translated_group(all));
    AliasRef::new(alias.index(), Arc::new(out))
}

/// The types that are translated in `t`, in order.
pub open spec fn spread(t: Ty) -> Seq<Ty> {
    match t {
        Ty::Forall(_, x) => seq![*x],
        Ty::Record(x) => seq![*x],
        Ty::Variant(x) => seq![*x],
        Ty::Effect(x) => seq![*x],
        Ty::Function(_, arg, ret) => seq![*arg, *ret],
        Ty::App(f, args) => seq![*f] + args,
        Ty::ExtendRow(fields, rest) => fields.map_values(|field: FieldTy| field.typ).push(*rest),
        Ty::ExtendTypeRow(types, rest) => types.map_values(|field: FieldTy| field.typ).push(*rest),
        Ty::Alias(alias) => alias.group.map_values(|data: AliasDataTy| data.typ),
        _ => Seq::empty(),
    }
}

/// `fields` with the types `us`.
pub open spec fn fields_of(fields: Seq<FieldTy>, us: Seq<Ty>) -> Seq<FieldTy> {
    Seq::new(fields.len(), |i: int| FieldTy { name: fields[i].name, typ: us[i] })
}

/// What becomes of `t` if `us` become of the types that are translated in it.
pub open spec fn gathered(t: Ty, us: Seq<Ty>) -> Ty {
    match t {
        Ty::Forall(params, _) => Ty::Forall(params, Box::new(us[0])),
        Ty::Record(_) => Ty::Record(Box::new(us[0])),
        Ty::Variant(_) => Ty::Variant(Box::new(us[0])),
        Ty::Effect(_) => Ty::Effect(Box::new(us[0])),
        Ty::Function(arg_type, _, _) => Ty::Function(arg_type, Box::new(us[0]), Box::new(us[1])),
        Ty::App(_, _) => Ty::App(Box::new(us[0]), us.skip(1)),
        Ty::ExtendRow(fields, _) => row_ty(fields_of(fields, us), us.last()),
        Ty::ExtendTypeRow(types, _) => type_row_ty(fields_of(types, us), us.last()),
        Ty::Alias(alias) => Ty::Alias(
            AliasTy {
                index: alias.index,
                group: Seq::new(
                    alias.group.len(),
                    |i: int| AliasDataTy { typ: us[i], ..alias.group[i] },
                ),
            },
        ),
        _ => t,
    }
}

/// `translate` may make `u` of `t`.
pub open spec fn translates<F: Fn(&ArcType) -> ArcType>(translate: F, t: Ty, u: Ty) -> bool {
    exists|from: &ArcType, to: ArcType|
        from@ == t && to@ == u && #[trigger] call_ensures(translate, (from,), to)
}

/// `translate` may make `us` of `ts`, one by one.
pub open spec fn all_translate<F: Fn(&ArcType) -> ArcType>(
    translate: F,
    ts: Seq<Ty>,
    us: Seq<Ty>,
) -> bool {
    &&& us.len() == ts.len()
    &&& forall|i: int| 0 <= i < us.len() ==> translates(translate, ts[i], #[trigger] us[i])
}

/// Translating a type is translating the types in it.
pub proof fn translated_by_parts(t: Ty)
    ensures
        translated(t) == gathered(t, translated_all(spread(t))),
{
    let us = translated_all(spread(t));
    match t {
        Ty::App(_, args) => {
            assert(us.skip(1) =~= translated_all(args));
        },
        Ty::ExtendRow(fields, _) => {
            assert(fields_of(fields, us) =~= translated_fields(fields));
        },
        Ty::ExtendTypeRow(types, _) => {
            assert(fields_of(types, us) =~= translated_fields(types));
        },
        Ty::Alias(alias) => {
            assert(Seq::new(
                alias.group.len(),
                |i: int| AliasDataTy { typ: us[i], ..alias.group[i] },
            ) =~= translated_group(alias.group));
        },
        _ => {},
    }
}

/// The alias that `typ` is.
fn alias_from(typ: &ArcType) -> (res: Alias)
    requires
        typ@ is Alias,
    ensures
        res@ == typ@,
{
    match typ.as_type() {
        Type::Alias(alias) => Alias::from_ref(alias.clone()),
        _ => unreached(),
    }
}

/// A copy of `typ` with `translate` applied to the types that it is directly made of. Row extensions
/// without fields are left out.
#[verifier::rlimit(30)]
pub fn translate_type_with<F: Fn(&ArcType) -> ArcType>(typ: &ArcType, translate: F) -> (res:
    ArcType)
    requires
        forall|from: &ArcType| #[trigger] call_requires(translate, (from,)),
        forall|from: &ArcType, to: ArcType| #[trigger]
            call_ensures(translate, (from,), to) && from@ is Alias ==> to@ is Alias,
    ensures
        exists|us: Seq<Ty>| #[trigger]
            all_translate(translate, spread(typ@), us) && res@ == gathered(typ@, us),
{
    let (res, us): (ArcType, Ghost<Seq<Ty>>) = match typ.as_type() {
        Type::Function(arg_type, arg, ret) => {
            let new_arg = translate(arg);
            let new_ret = translate(ret);
            let ghost us = seq![new_arg@, new_ret@];
            assert(translates(translate, arg@, new_arg@));
            assert(translates(translate, ret@, new_ret@));
            assert(all_translate(translate, spread(typ@), us));
            (ArcType::new(Type::Function(*arg_type, new_arg, new_ret)), Ghost(us))
        },
        Type::App(f, args) => {
            let new_f = translate(f);
            assert(translates(translate, f@, new_f@));
            let mut out: Vec<ArcType> = Vec::new();
            let mut i: usize = 0;
            while i < args.len()
                invariant
                    i <= args@.len(),
                    out@.len() == i,
                    forall|from: &ArcType| #[trigger] call_requires(translate, (from,)),
                    forall|j: int|
                        0 <= j < i ==> translates(translate, args@[j]@, (#[trigger] out@[j])@),
                decreases args@.len() - i,
            {
                let arg = translate(&args[i]);
                assert(translates(translate, args@[i as int]@, arg@));
                out.push(arg);
                i += 1;
            }
            let ghost us = seq![new_f@] + types_view(out@);
            assert(us.skip(1) =~= types_view(out@));
            proof {
                let ts = seq![f@] + types_view(args@);
                assert forall|i: int| 0 <= i < us.len() implies translates(
                    translate,
                    ts[i],
                    #[trigger] us[i],
                ) by {
                    if i > 0 {
                        assert(translates(translate, args@[i - 1]@, out@[i - 1]@));
                    }
                }
                assert(all_translate(translate, spread(typ@), us));
            }
            (ArcType::new(Type::App(new_f, out)), Ghost(us))
        },
        Type::Record(row) => {
            let new = translate(row);
            let ghost us = seq![new@];
            assert(translates(translate, row@, new@));
            assert(all_translate(translate, spread(typ@), us));
            (ArcType::new(Type::Record(new)), Ghost(us))
        },
        Type::Variant(row) => {
            let new = translate(row);
            let ghost us = seq![new@];
            assert(translates(translate, row@, new@));
            assert(all_translate(translate, spread(typ@), us));
            (ArcType::new(Type::Variant(new)), Ghost(us))
        },
        Type::Effect(row) => {
            let new = translate(row);
            let ghost us = seq![new@];
            assert(translates(translate, row@, new@));
            assert(all_translate(translate, spread(typ@), us));
            (ArcType::new(Type::Effect(new)), Ghost(us))
        },
        Type::Forall(params, inner) => {
            let new = translate(inner);
            let ghost us = seq![new@];
            assert(translates(translate, inner@, new@));
            assert(all_translate(translate, spread(typ@), us));
            (ArcType::new(Type::Forall(clone_generics(params), new)), Ghost(us))
        },
        Type::ExtendRow { fields, rest } => {
            let ghost all = fields_view(fields@);
            let mut out: Vec<Field> = Vec::new();
            let mut i: usize = 0;
            while i < fields.len()
                invariant
                    i <= fields@.len(),
                    out@.len() == i,
                    forall|from: &ArcType| #[trigger] call_requires(translate, (from,)),
                    forall|j: int|
                        0 <= j < i ==> (#[trigger] out@[j]).name@ == fields@[j].name@ && translates(
                            translate,
                            fields@[j].typ@,
                            out@[j].typ@,
                        ),
                decreases fields@.len() - i,
            {
                let field = translate(&fields[i].typ);
                assert(translates(translate, fields@[i as int].typ@, field@));
                out.push(Field { name: fields[i].name.clone(), typ: field });
                i += 1;
            }
            let new_rest = translate(rest);
            assert(translates(translate, rest@, new_rest@));
            let ghost us = fields_view(out@).map_values(
                |field: FieldTy| field.typ,
            ).push(new_rest@);
            assert(fields_of(all, us) =~= fields_view(out@));
            proof {
                let ts = all.map_values(|field: FieldTy| field.typ).push(rest@);
                assert forall|i: int| 0 <= i < us.len() implies translates(
                    translate,
                    ts[i],
                    #[trigger] us[i],
                ) by {
                    if i < all.len() {
                        assert(translates(translate, fields@[i].typ@, out@[i].typ@));
                    }
                }
                assert(all_translate(translate, spread(typ@), us));
            }
            (Type::extend_row(out, new_rest), Ghost(us))
        },
        Type::ExtendTypeRow { types, rest } => {
            let ghost all = type_fields_view(types@);
            let mut out: Vec<TypeField> = Vec::new();
            let mut i: usize = 0;
            while i < types.len()
                invariant
                    i <= types@.len(),
                    out@.len() == i,
                    forall|from: &ArcType| #[trigger] call_requires(translate, (from,)),
                    forall|from: &ArcType, to: ArcType| #[trigger]
                        call_ensures(translate, (from,), to) && from@ is Alias ==> to@ is Alias,
                    forall|j: int|
                        0 <= j < i ==> (#[trigger] out@[j]).name@ == types@[j].name@ && translates(
                            translate,
                            types@[j].typ@,
                            out@[j].typ@,
                        ),
                decreases types@.len() - i,
            {
                let alias = translate(types[i].typ.as_type());
                assert(translates(translate, types@[i as int].typ@, alias@));
                out.push(TypeField { name: types[i].name.clone(), typ: alias_from(&alias) });
                i += 1;
            }
            let new_rest = translate(rest);
            assert(translates(translate, rest@, new_rest@));
            let ghost us = type_fields_view(out@).map_values(
                |field: FieldTy| field.typ,
            ).push(new_rest@);
            assert(fields_of(all, us) =~= type_fields_view(out@));
            proof {
                let ts = all.map_values(|field: FieldTy| field.typ).push(rest@);
                assert forall|i: int| 0 <= i < us.len() implies translates(
                    translate,
                    ts[i],
                    #[trigger] us[i],
                ) by {
                    if i < all.len() {
                        assert(translates(translate, types@[i].typ@, out@[i].typ@));
                    }
                }
                assert(all_translate(translate, spread(typ@), us));
            }
            (Type::extend_type_row(out, new_rest), Ghost(us))
        },
        Type::Alias(alias) => {
            let group = alias.group();
            let mut out: Vec<AliasData> = Vec::new();
            let mut i: usize = 0;
            while i < group.len()
                invariant
                    i <= group@.len(),
                    out@.len() == i,
                    forall|from: &ArcType| #[trigger] call_requires(translate, (from,)),
                    forall|j: int|
                        0 <= j < i ==> (#[trigger] out@[j])@ == (AliasDataTy {
                            typ: out@[j]@.typ,
                            ..group@[j]@
                        }) && translates(translate, group@[j]@.typ, out@[j]@.typ),
                decreases group@.len() - i,
            {
                let new = translate(group[i].unresolved_type());
                assert(translates(translate, group@[i as int]@.typ, new@));
                out.push(group[i].with_type(new));
                i += 1;
            }
            let ghost us = group_view(out@).map_values(|data: AliasDataTy| data.typ);
            assert(Seq::new(
                alias@.group.len(),
                |i: int| AliasDataTy { typ: us[i], ..alias@.group[i] },
            ) =~= group_view(out@));
            proof {
                let ts = alias@.group.map_values(|data: AliasDataTy| data.typ);
                assert forall|i: int| 0 <= i < us.len() implies translates(
                    translate,
                    ts[i],
                    #[trigger] us[i],
                ) by {
                    assert(translates(translate, group@[i]@.typ, out@[i]@.typ));
                }
                assert(all_translate(translate, spread(typ@), us));
            }
            (ArcType::new(Type::Alias(AliasRef::new(alias.index(), Arc::new(out)))), Ghost(us))
        },
        _ => (typ.clone(), Ghost(Seq::empty())),
    };
    assert(all_translate(translate, spread(typ@), us@) && res@ == gathered(typ@, us@));
    res
}

} // verus!
