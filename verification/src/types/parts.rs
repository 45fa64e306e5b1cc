//! Looking at the parts of a type, and changing them.

use std::sync::Arc;
use vstd::prelude::*;
use crate::types::model::{AliasDataTy, AliasTy, FieldTy, Ty};
use crate::types::query::{preorder, preorder_aliased, preorder_all, preorder_fields};
use crate::types::{
    clone_generics, fields_view, group_view, type_fields_view, types_view, Alias, AliasData,
    AliasRef, ArcType, Field, Type, TypeField,
};

verus! {

/// What looks at types, and may remember something of those that it has seen.
pub trait Walker: Sized {
    /// The walker `before` may be `after` once it has seen the type `t`. A walker that does not say
    /// so may be anything then.
    open spec fn sees(before: Self, t: Ty, after: Self) -> bool {
        true
    }

    /// Looks at `typ`.
    fn walk(&mut self, typ: &ArcType)
        ensures
            Self::sees(*old(self), typ@, *final(self)),
    ;
}

/// What changes types, and may remember something of those that it has seen.
pub trait WalkerMut: Sized {
    /// The walker `before` may make `u` of the type `t` and is `after` then. A walker that does not
    /// say so may do anything.
    open spec fn walks(before: Self, t: Ty, after: Self, u: Ty) -> bool {
        true
    }

    /// Changes `typ`.
    fn walk_mut(&mut self, typ: &mut ArcType)
        ensures
            Self::walks(*old(self), old(typ)@, *final(self), final(typ)@),
    ;
}

/// The type that the alias `t` stands for.
pub open spec fn aliased(t: Ty) -> Ty {
    match t {
        Ty::Alias(alias) => alias.data().typ,
        _ => t,
    }
}

/// The alias `t`, standing for `u`.
pub open spec fn with_aliased(t: Ty, u: Ty) -> Ty {
    match t {
        Ty::Alias(alias) => Ty::Alias(
            AliasTy {
                index: alias.index,
                group: alias.group.update(alias.index, AliasDataTy { typ: u, ..alias.data() }),
            },
        ),
        _ => u,
    }
}

/// The types that `t` is directly made of, in the order in which they are walked.
pub open spec fn parts(t: Ty) -> Seq<Ty> {
    match t {
        Ty::Forall(_, x) => seq![*x],
        Ty::Record(x) => seq![*x],
        Ty::Variant(x) => seq![*x],
        Ty::Effect(x) => seq![*x],
        Ty::Function(_, arg, ret) => seq![*arg, *ret],
        Ty::App(f, args) => seq![*f] + args,
        Ty::ExtendRow(fields, rest) => fields.map_values(|field: FieldTy| field.typ).push(*rest),
        Ty::ExtendTypeRow(types, rest) => types.map_values(
            |field: FieldTy| aliased(field.typ),
        ).push(*rest),
        _ => Seq::empty(),
    }
}

/// `t` made of `us` in place of its parts.
pub open spec fn with_parts(t: Ty, us: Seq<Ty>) -> Ty {
    match t {
        Ty::Forall(params, _) => Ty::Forall(params, Box::new(us[0])),
        Ty::Record(_) => Ty::Record(Box::new(us[0])),
        Ty::Variant(_) => Ty::Variant(Box::new(us[0])),
        Ty::Effect(_) => Ty::Effect(Box::new(us[0])),
        Ty::Function(arg_type, _, _) => Ty::Function(arg_type, Box::new(us[0]), Box::new(us[1])),
        Ty::App(_, args) => Ty::App(Box::new(us[0]), us.skip(1)),
        Ty::ExtendRow(fields, _) => Ty::ExtendRow(
            Seq::new(fields.len(), |i: int| FieldTy { name: fields[i].name, typ: us[i] }),
            Box::new(us.last()),
        ),
        Ty::ExtendTypeRow(types, _) => Ty::ExtendTypeRow(
            Seq::new(
                types.len(),
                |i: int| FieldTy { name: types[i].name, typ: with_aliased(types[i].typ, us[i]) },
            ),
            Box::new(us.last()),
        ),
        _ => t,
    }
}

/// A walker that is `before` sees `ts` one after the other and is `after` then.
pub open spec fn sees_all<W: Walker>(before: W, ts: Seq<Ty>, after: W) -> bool
    decreases ts.len(),
{
    if ts.len() == 0 {
        after == before
    } else {
        exists|mid: W|
            sees_all(before, ts.drop_last(), mid) && #[trigger] W::sees(mid, ts.last(), after)
    }
}

proof fn sees_one_more<W: Walker>(before: W, ts: Seq<Ty>, mid: W, t: Ty, after: W)
    requires
        sees_all(before, ts, mid),
        W::sees(mid, t, after),
    ensures
        sees_all(before, ts.push(t), after),
{
    assert(ts.push(t).drop_last() =~= ts);
    assert(W::sees(mid, ts.push(t).last(), after));
}

/// A walker that is `before` walks `ts` one after the other, makes `us` of them, and is `after`
/// then.
pub open spec fn walks_all<W: WalkerMut>(before: W, ts: Seq<Ty>, after: W, us: Seq<Ty>) -> bool
    decreases ts.len(),
{
    if ts.len() == 0 {
        us.len() == 0 && after == before
    } else {
        &&& us.len() == ts.len()
        &&& exists|mid: W|
            walks_all(before, ts.drop_last(), mid, us.drop_last()) && #[trigger] W::walks(
                mid,
                ts.last(),
                after,
                us.last(),
            )
    }
}

proof fn walks_one_more<W: WalkerMut>(
    before: W,
    ts: Seq<Ty>,
    mid: W,
    us: Seq<Ty>,
    t: Ty,
    after: W,
    u: Ty,
)
    requires
        walks_all(before, ts, mid, us),
        W::walks(mid, t, after, u),
    ensures
        walks_all(before, ts.push(t), after, us.push(u)),
{
    assert(ts.push(t).drop_last() =~= ts);
    assert(us.push(u).drop_last() =~= us);
    assert(W::walks(mid, ts.push(t).last(), after, us.push(u).last()));
}

/// A type with its own parts in their places is that type.
pub proof fn parts_put_back(t: Ty)
    requires
        t matches Ty::ExtendTypeRow(types, _) ==> forall|i: int|
            0 <= i < types.len() ==> ((#[trigger] types[i]).typ matches Ty::Alias(alias) ==> 0
                <= alias.index < alias.group.len()),
    ensures
        with_parts(t, parts(t)) == t,
{
    let us = parts(t);
    match t {
        Ty::App(_, args) => {
            assert(us.skip(1) =~= args);
        },
        Ty::ExtendRow(fields, _) => {
            assert(Seq::new(fields.len(), |i: int| FieldTy { name: fields[i].name, typ: us[i] })
                =~= fields);
        },
        Ty::ExtendTypeRow(types, _) => {
            assert forall|i: int| 0 <= i < types.len() implies with_aliased(
                #[trigger] types[i].typ,
                us[i],
            ) == types[i].typ by {
                if let Ty::Alias(alias) = types[i].typ {
                    assert(alias.group.update(alias.index, alias.data()) =~= alias.group);
                }
            }
            assert(Seq::new(
                types.len(),
                |i: int| FieldTy { name: types[i].name, typ: with_aliased(types[i].typ, us[i]) },
            ) =~= types);
        },
        _ => {},
    }
}

proof fn preorder_of_first(t: Ty, ts: Seq<Ty>, n: nat)
    requires
        n <= ts.len(),
    ensures
        preorder_all(seq![t] + ts, n + 1) == preorder(t) + preorder_all(ts, n),
    decreases n,
{
    let all = seq![t] + ts;
    if n == 0 {
        assert(preorder_all(all, 0) =~= Seq::empty());
        assert(preorder_all(all, 1) =~= preorder(t));
    } else {
        preorder_of_first(t, ts, (n - 1) as nat);
        assert(preorder_all(all, n + 1) =~= preorder_all(all, n) + preorder(ts[n - 1]));
    }
    assert(preorder_all(all, n + 1) =~= preorder(t) + preorder_all(ts, n));
}

proof fn preorder_of_fields(fields: Seq<FieldTy>, ts: Seq<Ty>, n: nat)
    requires
        n <= fields.len() <= ts.len(),
        forall|i: int| 0 <= i < fields.len() ==> (#[trigger] fields[i]).typ == ts[i],
    ensures
        preorder_fields(fields, n) == preorder_all(ts, n),
    decreases n,
{
    if n > 0 {
        preorder_of_fields(fields, ts, (n - 1) as nat);
        assert(fields[n - 1].typ == ts[n - 1]);
    }
}

proof fn preorder_of_aliased(types: Seq<FieldTy>, ts: Seq<Ty>, n: nat)
    requires
        n <= types.len() <= ts.len(),
        forall|i: int|
            0 <= i < types.len() ==> ((#[trigger] types[i]).typ matches Ty::Alias(alias) && 0
                <= alias.index < alias.group.len() && alias.data().typ == ts[i]),
    ensures
        preorder_aliased(types, n) == preorder_all(ts, n),
    decreases n,
{
    if n > 0 {
        preorder_of_aliased(types, ts, (n - 1) as nat);
        assert(types[n - 1].typ is Alias);
    }
}

/// Walking through all of a type is looking at the type and walking through each of its parts.
pub proof fn walked_by_parts(t: Ty)
    requires
        t matches Ty::ExtendTypeRow(types, _) ==> forall|i: int|
            0 <= i < types.len() ==> ((#[trigger] types[i]).typ matches Ty::Alias(alias) && 0
                <= alias.index < alias.group.len()),
    ensures
        preorder(t) == seq![t] + preorder_all(parts(t), parts(t).len()),
{
    let ts = parts(t);
    match t {
        Ty::Forall(_, x) | Ty::Record(x) | Ty::Variant(x) | Ty::Effect(x) => {
            preorder_of_first(*x, Seq::empty(), 0);
            assert(seq![*x] + Seq::<Ty>::empty() =~= ts);
        },
        Ty::Function(_, arg, ret) => {
            preorder_of_first(*arg, seq![*ret], 1);
            preorder_of_first(*ret, Seq::empty(), 0);
            assert(seq![*arg] + seq![*ret] =~= ts);
            assert(seq![*ret] + Seq::<Ty>::empty() =~= seq![*ret]);
        },
        Ty::App(f, args) => {
            preorder_of_first(*f, args, args.len());
        },
        Ty::ExtendRow(fields, rest) => {
            preorder_of_fields(fields, ts, fields.len());
            assert(ts[fields.len() as int] == *rest);
        },
        Ty::ExtendTypeRow(types, rest) => {
            preorder_of_aliased(types, ts, types.len());
            assert(ts[types.len() as int] == *rest);
        },
        _ => {},
    }
    assert(preorder(t) =~= seq![t] + preorder_all(ts, ts.len()));
}

/// The parts of `typ`.
fn parts_of(typ: &ArcType) -> (res: Vec<ArcType>)
    ensures
        types_view(res@) == parts(typ@),
{
    let mut res: Vec<ArcType> = Vec::new();
    match typ.as_type() {
        Type::Forall(_, x) | Type::Record(x) | Type::Variant(x) | Type::Effect(x) => {
            res.push(x.clone());
            assert(types_view(res@) =~= seq![x@]);
        },
        Type::Function(_, arg, ret) => {
            res.push(arg.clone());
            res.push(ret.clone());
            assert(types_view(res@) =~= seq![arg@, ret@]);
        },
        Type::App(f, args) => {
            res.push(f.clone());
            let mut i: usize = 0;
            while i < args.len()
                invariant
                    i <= args@.len(),
                    res@ == seq![*f] + args@.take(i as int),
                decreases args@.len() - i,
            {
                res.push(args[i].clone());
                i += 1;
                assert(res@ =~= seq![*f] + args@.take(i as int));
            }
            assert(types_view(res@) =~= seq![f@] + types_view(args@));
        },
        Type::ExtendRow { fields, rest } => {
            let mut i: usize = 0;
            while i < fields.len()
                invariant
                    i <= fields@.len(),
                    res@.len() == i,
                    forall|j: int| 0 <= j < i ==> (#[trigger] res@[j])@ == fields@[j].typ@,
                decreases fields@.len() - i,
            {
                res.push(fields[i].typ.clone());
                i += 1;
            }
            res.push(rest.clone());
            assert(types_view(res@) =~= fields_view(fields@).map_values(
                |field: FieldTy| field.typ,
            ).push(rest@));
        },
        Type::ExtendTypeRow { types, rest } => {
            let mut i: usize = 0;
            while i < types.len()
                invariant
                    i <= types@.len(),
                    res@.len() == i,
                    forall|j: int| 0 <= j < i ==> (#[trigger] res@[j])@ == aliased(types@[j].typ@),
                decreases types@.len() - i,
            {
                res.push(types[i].typ.as_ref().data().unresolved_type().clone());
                i += 1;
            }
            res.push(rest.clone());
            assert(types_view(res@) =~= type_fields_view(types@).map_values(
                |field: FieldTy| aliased(field.typ),
            ).push(rest@));
        },
        _ => {
            assert(types_view(res@) =~= Seq::<Ty>::empty());
        },
    }
    res
}

/// The alias `alias`, standing for `typ`.
fn alias_of(alias: &Alias, typ: ArcType) -> (res: Alias)
    ensures
        res@ == with_aliased(alias@, typ@),
{
    let data = alias.as_ref();
    let old_group = data.group();
    let index = data.index();
    let mut group: Vec<AliasData> = Vec::new();
    let mut i: usize = 0;
    while i < old_group.len()
        invariant
            i <= old_group@.len(),
            group@.len() == i,
            forall|j: int|
                0 <= j < i ==> (#[trigger] group@[j])@ == if j == index {
                    AliasDataTy { typ: typ@, ..old_group@[j]@ }
                } else {
                    old_group@[j]@
                },
        decreases old_group@.len() - i,
    {
        let old_data = &old_group[i];
        let new_type = if i == index {
            typ.clone()
        } else {
            old_data.unresolved_type().clone()
        };
        group.push(old_data.with_type(new_type));
        i += 1;
    }
    assert(group_view(group@) =~= data@.group.update(
        index as int,
        AliasDataTy { typ: typ@, ..data@.data() },
    ));
    Alias::from_ref(AliasRef::new(index, Arc::new(group)))
}

/// `typ` with `new` in place of its parts.
fn with_parts_of(typ: &ArcType, new: Vec<ArcType>) -> (res: ArcType)
    requires
        new@.len() == parts(typ@).len(),
    ensures
        res@ == with_parts(typ@, types_view(new@)),
{
    let mut new = new;
    let ghost us = types_view(new@);
    match typ.as_type() {
        Type::Forall(params, _) => ArcType::new(Type::Forall(clone_generics(params), new.remove(0))),
        Type::Record(_) => ArcType::new(Type::Record(new.remove(0))),
        Type::Variant(_) => ArcType::new(Type::Variant(new.remove(0))),
        Type::Effect(_) => ArcType::new(Type::Effect(new.remove(0))),
        Type::Function(arg_type, _, _) => {
            let arg = new.remove(0);
            ArcType::new(Type::Function(*arg_type, arg, new.remove(0)))
        },
        Type::App(_, _) => {
            let f = new.remove(0);
            assert(types_view(new@) =~= us.skip(1));
            ArcType::new(Type::App(f, new))
        },
        Type::ExtendRow { fields, rest: _ } => {
            let mut res: Vec<Field> = Vec::new();
            assert(fields_view(fields@).len() == fields@.len());
            let mut i: usize = 0;
            while i < fields.len()
                invariant
                    i <= fields@.len(),
                    new@.len() == fields@.len() + 1,
                    res@.len() == i,
                    forall|j: int|
                        0 <= j < i ==> (#[trigger] res@[j]).name@ == fields@[j].name@
                            && res@[j].typ@ == new@[j]@,
                decreases fields@.len() - i,
            {
                res.push(Field { name: fields[i].name.clone(), typ: new[i].clone() });
                i += 1;
            }
            let rest = new.remove(i);
            let ghost old_fields = fields_view(fields@);
            assert(fields_view(res@) =~= Seq::new(
                old_fields.len(),
                |i: int| FieldTy { name: old_fields[i].name, typ: us[i] },
            ));
            ArcType::new(Type::ExtendRow { fields: res, rest })
        },
        Type::ExtendTypeRow { types, rest: _ } => {
            let mut res: Vec<TypeField> = Vec::new();
            assert(type_fields_view(types@).len() == types@.len());
            let mut i: usize = 0;
            while i < types.len()
                invariant
                    i <= types@.len(),
                    new@.len() == types@.len() + 1,
                    res@.len() == i,
                    forall|j: int|
                        0 <= j < i ==> (#[trigger] res@[j]).name@ == types@[j].name@
                            && res@[j].typ@ == with_aliased(types@[j].typ@, new@[j]@),
                decreases types@.len() - i,
            {
                let alias = alias_of(&types[i].typ, new[i].clone());
                res.push(TypeField { name: types[i].name.clone(), typ: alias });
                i += 1;
            }
            let rest = new.remove(i);
            let ghost old_types = type_fields_view(types@);
            assert(type_fields_view(res@) =~= Seq::new(
                old_types.len(),
                |i: int|
                    FieldTy {
                        name: old_types[i].name,
                        typ: with_aliased(old_types[i].typ, us[i]),
                    },
            ));
            ArcType::new(Type::ExtendTypeRow { types: res, rest })
        },
        _ => typ.clone(),
    }
}

/// Shows the parts of `typ` to `f`, one after the other.
pub fn walk_type_<W: Walker>(typ: &ArcType, f: &mut W)
    ensures
        sees_all(*old(f), parts(typ@), *final(f)),
{
    let ghost ts = parts(typ@);
    let all = parts_of(typ);
    let mut i: usize = 0;
    while i < all.len()
        invariant
            i <= all@.len(),
            types_view(all@) == ts,
            sees_all(*old(f), ts.take(i as int), *f),
        decreases all@.len() - i,
    {
        let ghost before = *f;
        assert(ts[i as int] == all@[i as int]@);
        f.walk(&all[i]);
        proof {
            sees_one_more(*old(f), ts.take(i as int), before, ts[i as int], *f);
            assert(ts.take(i + 1) =~= ts.take(i as int).push(ts[i as int]));
        }
        i += 1;
    }
    assert(ts.take(i as int) =~= ts);
}

/// Hands the parts of `typ` to `f`, one after the other, and puts what it makes of them in their
/// places. What others share with `typ` stays as it is.
pub fn walk_type_mut<W: WalkerMut>(typ: &mut ArcType, f: &mut W)
    ensures
        exists|us: Seq<Ty>| #[trigger]
            walks_all(*old(f), parts(old(typ)@), *final(f), us) && final(typ)@ == with_parts(
                old(typ)@,
                us,
            ),
{
    let ghost ts = parts(typ@);
    let mut new = parts_of(typ);
    let mut i: usize = 0;
    while i < new.len()
        invariant
            i <= new@.len(),
            new@.len() == ts.len(),
            forall|j: int| i <= j < ts.len() ==> (#[trigger] new@[j])@ == ts[j],
            walks_all(*old(f), ts.take(i as int), *f, types_view(new@.take(i as int))),
        decreases new@.len() - i,
    {
        let ghost before = *f;
        let ghost made = types_view(new@.take(i as int));
        f.walk_mut(&mut new[i]);
        proof {
            let u = new@[i as int]@;
            walks_one_more(*old(f), ts.take(i as int), before, made, ts[i as int], *f, u);
            assert(ts.take(i + 1) =~= ts.take(i as int).push(ts[i as int]));
            assert(types_view(new@.take(i + 1)) =~= made.push(u));
        }
        i += 1;
    }
    proof {
        assert(ts.take(i as int) =~= ts);
        assert(new@.take(i as int) =~= new@);
    }
    *typ = with_parts_of(typ, new);
}

} // verus!
