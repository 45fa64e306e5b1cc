//! What holds of types and of their unification as a whole.

use vstd::prelude::*;
use crate::substitution::actual;
use crate::types::model::{parts_decrease, same_fields, same_type, same_types, FieldTy, Ty};
use crate::types::query::name_of;
use crate::unify_type::{
    alias_search, any_new, common_alias, cut, field_types, is_row, matched, matched_all, row_part,
    same_names, unified, unified_by, zipped, zipped_applications, zipped_parts, zipped_rows,
    Attempt, Surroundings, Unified,
};

verus! {

/// Each alias in `t` is one of its group.
pub open spec fn valid(t: Ty) -> bool
    decreases t,
{
    match t {
        Ty::Forall(_, x) => valid(*x),
        Ty::App(f, args) => valid(*f) && all_valid(args),
        Ty::Function(_, arg, ret) => valid(*arg) && valid(*ret),
        Ty::Record(x) => valid(*x),
        Ty::Variant(x) => valid(*x),
        Ty::Effect(x) => valid(*x),
        Ty::ExtendRow(fields, rest) => valid(*rest) && fields_valid(fields),
        Ty::ExtendTypeRow(types, rest) => valid(*rest) && fields_valid(types),
        Ty::Alias(alias) => if 0 <= alias.index < alias.group.len() {
            valid(alias.group[alias.index].typ)
        } else {
            false
        },
        _ => true,
    }
}

pub open spec fn all_valid(types: Seq<Ty>) -> bool
    decreases types,
{
    forall|i: int| 0 <= i < types.len() ==> valid(#[trigger] types[i])
}

pub open spec fn fields_valid(fields: Seq<FieldTy>) -> bool
    decreases fields,
{
    forall|i: int| 0 <= i < fields.len() ==> valid((#[trigger] fields[i]).typ)
}

/// A type is the same as itself.
pub proof fn same_as_itself(t: Ty)
    requires
        valid(t),
    ensures
        same_type(t, t),
    decreases t,
{
    parts_decrease(t);
    match t {
        Ty::Forall(_, x) => {
            same_as_itself(*x);
        },
        Ty::App(f, args) => {
            same_as_itself(*f);
            all_same_as_themselves(args);
        },
        Ty::Function(_, arg, ret) => {
            same_as_itself(*arg);
            same_as_itself(*ret);
        },
        Ty::Record(x) => {
            same_as_itself(*x);
        },
        Ty::Variant(x) => {
            same_as_itself(*x);
        },
        Ty::Effect(x) => {
            same_as_itself(*x);
        },
        Ty::ExtendRow(fields, rest) => {
            same_as_itself(*rest);
            fields_same_as_themselves(fields);
        },
        Ty::ExtendTypeRow(types, rest) => {
            same_as_itself(*rest);
            fields_same_as_themselves(types);
        },
        Ty::Alias(alias) => {
            same_as_itself(alias.group[alias.index].typ);
        },
        _ => {},
    }
}

proof fn all_same_as_themselves(types: Seq<Ty>)
    requires
        all_valid(types),
    ensures
        same_types(types, types),
    decreases types,
{
    assert forall|i: int| 0 <= i < types.len() implies same_type(#[trigger] types[i], types[i]) by {
        assert(decreases_to!(types => types[i]));
        same_as_itself(types[i]);
    }
}

proof fn fields_same_as_themselves(fields: Seq<FieldTy>)
    requires
        fields_valid(fields),
    ensures
        same_fields(fields, fields),
    decreases fields,
{
    assert forall|i: int| 0 <= i < fields.len() implies fields[i].name == fields[i].name
        && same_type((#[trigger] fields[i]).typ, fields[i].typ) by {
        assert(decreases_to!(fields => fields[i]));
        assert(decreases_to!(fields[i] => fields[i].typ));
        same_as_itself(fields[i].typ);
    }
}

/// If a type is the same as another one the other one is the same as it.
pub proof fn same_both_ways(l: Ty, r: Ty)
    requires
        valid(l),
        valid(r),
        same_type(l, r),
    ensures
        same_type(r, l),
    decreases l,
{
    parts_decrease(l);
    match (l, r) {
        (Ty::Forall(_, x), Ty::Forall(_, y)) => {
            same_both_ways(*x, *y);
        },
        (Ty::App(f, a), Ty::App(g, b)) => {
            same_both_ways(*f, *g);
            types_same_both_ways(a, b);
        },
        (Ty::Function(_, a, x), Ty::Function(_, b, y)) => {
            same_both_ways(*a, *b);
            same_both_ways(*x, *y);
        },
        (Ty::Record(x), Ty::Record(y)) => {
            same_both_ways(*x, *y);
        },
        (Ty::Variant(x), Ty::Variant(y)) => {
            same_both_ways(*x, *y);
        },
        (Ty::Effect(x), Ty::Effect(y)) => {
            same_both_ways(*x, *y);
        },
        (Ty::ExtendRow(a, x), Ty::ExtendRow(b, y)) => {
            same_both_ways(*x, *y);
            fields_same_both_ways(a, b);
        },
        (Ty::ExtendTypeRow(a, x), Ty::ExtendTypeRow(b, y)) => {
            same_both_ways(*x, *y);
            fields_same_both_ways(a, b);
        },
        (Ty::Alias(a), Ty::Alias(b)) => {
            same_both_ways(a.group[a.index].typ, b.group[b.index].typ);
        },
        _ => {},
    }
}

proof fn types_same_both_ways(a: Seq<Ty>, b: Seq<Ty>)
    requires
        all_valid(a),
        all_valid(b),
        same_types(a, b),
    ensures
        same_types(b, a),
    decreases a,
{
    assert forall|i: int| 0 <= i < b.len() implies same_type(#[trigger] b[i], a[i]) by {
        assert(decreases_to!(a => a[i]));
        assert(same_type(a[i], b[i]));
        assert(valid(a[i]) && valid(b[i]));
        same_both_ways(a[i], b[i]);
    }
}

proof fn fields_same_both_ways(a: Seq<FieldTy>, b: Seq<FieldTy>)
    requires
        fields_valid(a),
        fields_valid(b),
        same_fields(a, b),
    ensures
        same_fields(b, a),
    decreases a,
{
    assert forall|i: int| 0 <= i < b.len() implies b[i].name == a[i].name && same_type(
        (#[trigger] b[i]).typ,
        a[i].typ,
    ) by {
        assert(decreases_to!(a => a[i]));
        assert(decreases_to!(a[i] => a[i].typ));
        assert(same_type(a[i].typ, b[i].typ));
        assert(valid(a[i].typ) && valid(b[i].typ));
        same_both_ways(a[i].typ, b[i].typ);
    }
}

/// Two types that are the same as a third one are the same.
pub proof fn same_through(a: Ty, b: Ty, c: Ty)
    requires
        valid(a),
        valid(b),
        same_type(a, b),
        same_type(b, c),
    ensures
        same_type(a, c),
    decreases a,
{
    parts_decrease(a);
    match (a, b, c) {
        (Ty::Forall(_, x), Ty::Forall(_, y), Ty::Forall(_, z)) => {
            same_through(*x, *y, *z);
        },
        (Ty::App(f, p), Ty::App(g, q), Ty::App(h, r)) => {
            same_through(*f, *g, *h);
            types_same_through(p, q, r);
        },
        (Ty::Function(_, p, x), Ty::Function(_, q, y), Ty::Function(_, r, z)) => {
            same_through(*p, *q, *r);
            same_through(*x, *y, *z);
        },
        (Ty::Record(x), Ty::Record(y), Ty::Record(z)) => {
            same_through(*x, *y, *z);
        },
        (Ty::Variant(x), Ty::Variant(y), Ty::Variant(z)) => {
            same_through(*x, *y, *z);
        },
        (Ty::Effect(x), Ty::Effect(y), Ty::Effect(z)) => {
            same_through(*x, *y, *z);
        },
        (Ty::ExtendRow(p, x), Ty::ExtendRow(q, y), Ty::ExtendRow(r, z)) => {
            same_through(*x, *y, *z);
            fields_same_through(p, q, r);
        },
        (Ty::ExtendTypeRow(p, x), Ty::ExtendTypeRow(q, y), Ty::ExtendTypeRow(r, z)) => {
            same_through(*x, *y, *z);
            fields_same_through(p, q, r);
        },
        (Ty::Alias(x), Ty::Alias(y), Ty::Alias(z)) => {
            same_through(x.group[x.index].typ, y.group[y.index].typ, z.data().typ);
        },
        _ => {},
    }
}

proof fn types_same_through(p: Seq<Ty>, q: Seq<Ty>, r: Seq<Ty>)
    requires
        all_valid(p),
        all_valid(q),
        same_types(p, q),
        same_types(q, r),
    ensures
        same_types(p, r),
    decreases p,
{
    assert forall|i: int| 0 <= i < p.len() implies same_type(#[trigger] p[i], r[i]) by {
        assert(decreases_to!(p => p[i]));
        assert(same_type(p[i], q[i]) && same_type(q[i], r[i]));
        assert(valid(p[i]) && valid(q[i]));
        same_through(p[i], q[i], r[i]);
    }
}

proof fn fields_same_through(p: Seq<FieldTy>, q: Seq<FieldTy>, r: Seq<FieldTy>)
    requires
        fields_valid(p),
        fields_valid(q),
        same_fields(p, q),
        same_fields(q, r),
    ensures
        same_fields(p, r),
    decreases p,
{
    assert forall|i: int| 0 <= i < p.len() implies p[i].name == r[i].name && same_type(
        (#[trigger] p[i]).typ,
        r[i].typ,
    ) by {
        assert(decreases_to!(p => p[i]));
        assert(decreases_to!(p[i] => p[i].typ));
        assert(same_type(p[i].typ, q[i].typ) && same_type(q[i].typ, r[i].typ));
        assert(valid(p[i].typ) && valid(q[i].typ));
        same_through(p[i].typ, q[i].typ, r[i].typ);
    }
}

/// There are no variables in the parts of `t` that are matched one by one.
pub open spec fn without_variables(t: Ty) -> bool
    decreases t,
{
    match t {
        Ty::Variable(_) => false,
        Ty::App(f, args) => without_variables(*f) && all_without_variables(args),
        Ty::Function(_, arg, ret) => without_variables(*arg) && without_variables(*ret),
        Ty::Record(x) => without_variables(*x),
        Ty::ExtendRow(fields, rest) => without_variables(*rest) && fields_without_variables(fields),
        Ty::ExtendTypeRow(_, rest) => without_variables(*rest),
        _ => true,
    }
}

pub open spec fn all_without_variables(types: Seq<Ty>) -> bool
    decreases types,
{
    forall|i: int| 0 <= i < types.len() ==> without_variables(#[trigger] types[i])
}

pub open spec fn fields_without_variables(fields: Seq<FieldTy>) -> bool
    decreases fields,
{
    forall|i: int| 0 <= i < fields.len() ==> without_variables((#[trigger] fields[i]).typ)
}

/// How many steps it takes at most to match `t` with itself.
spec fn depth(t: Ty) -> nat
    decreases t, 0nat,
{
    match t {
        Ty::App(f, args) => 2 + depth(*f) + depth_all(args, args.len()),
        Ty::Function(_, arg, ret) => 2 + depth(*arg) + depth(*ret),
        Ty::Record(x) => 2 + depth(*x),
        Ty::ExtendRow(fields, rest) => 2 + depth(*rest) + depth_fields(fields, fields.len()),
        Ty::ExtendTypeRow(_, rest) => 2 + depth(*rest),
        _ => 2,
    }
}

spec fn depth_all(types: Seq<Ty>, n: nat) -> nat
    decreases types, n,
{
    if n == 0 || n > types.len() {
        0
    } else {
        depth_all(types, (n - 1) as nat) + depth(types[n - 1])
    }
}

spec fn depth_fields(fields: Seq<FieldTy>, n: nat) -> nat
    decreases fields, n,
{
    if n == 0 || n > fields.len() {
        0
    } else {
        depth_fields(fields, (n - 1) as nat) + depth(fields[n - 1].typ)
    }
}

proof fn common_with_itself(f: nat, around: Surroundings, s: Unified, t: Ty)
    ensures
        common_alias(f, around.infos, s.reduced, t, t) matches Some(common) && common.reduced
            == s.reduced && common.l == t && common.r == t && !common.through,
{
    if let Some(goal) = name_of(t) {
        assert(alias_search(f, around.infos, s.reduced, t, goal, false) is Some);
    }
}

proof fn zipped_with_itself(f: nat, around: Surroundings, s: Unified, t: Ty)
    requires
        zipped_parts(f, around, s, t, t) == Some((s, Attempt::Matched(None))),
    ensures
        zipped(f, around, s, t, t) == Some((s, Attempt::Matched(None))),
{
    common_with_itself(f, around, s, t);
    assert(cut(s.reduced, s.reduced.len()) =~= s.reduced);
}

spec fn none(n: nat) -> Seq<Option<Ty>> {
    Seq::new(n, |i: int| None)
}

proof fn nothing_new(n: nat)
    ensures
        !any_new(none(n)),
{
}

proof fn matched_with_itself(f: nat, around: Surroundings, s: Unified, t: Ty)
    requires
        valid(t),
        without_variables(t),
        f >= depth(t),
    ensures
        matched(f, around, s, t, t) == Some((s, None::<Ty>)),
    decreases t, 2nat,
{
    assert(actual(s.subst, t) == Some(t));
    parts_with_themselves((f - 1) as nat, around, s, t);
    zipped_with_itself((f - 1) as nat, around, s, t);
}

proof fn all_with_themselves(f: nat, around: Surroundings, s: Unified, types: Seq<Ty>, n: nat)
    requires
        all_valid(types),
        all_without_variables(types),
        n <= types.len(),
        f >= depth_all(types, n),
    ensures
        matched_all(f, around, s, types, types, n) == Some((s, none(n))),
    decreases types, n,
{
    if n > 0 {
        assert(decreases_to!(types => types[n - 1]));
        all_with_themselves(f, around, s, types, (n - 1) as nat);
        assert(valid(types[n - 1]) && without_variables(types[n - 1]));
        matched_with_itself(f, around, s, types[n - 1]);
        assert(none((n - 1) as nat).push(None) =~= none(n));
    } else {
        assert(none(0) =~= Seq::empty());
    }
}

proof fn fields_with_themselves(
    f: nat,
    around: Surroundings,
    s: Unified,
    fields: Seq<FieldTy>,
    n: nat,
)
    requires
        fields_valid(fields),
        fields_without_variables(fields),
        n <= fields.len(),
        f >= depth_fields(fields, n),
    ensures
        matched_all(f, around, s, field_types(fields), field_types(fields), n) == Some(
            (s, none(n)),
        ),
    decreases fields, n,
{
    if n > 0 {
        assert(decreases_to!(fields => fields[n - 1]));
        assert(decreases_to!(fields[n - 1] => fields[n - 1].typ));
        fields_with_themselves(f, around, s, fields, (n - 1) as nat);
        assert(valid(fields[n - 1].typ) && without_variables(fields[n - 1].typ));
        matched_with_itself(f, around, s, fields[n - 1].typ);
        assert(field_types(fields)[n - 1] == fields[n - 1].typ);
        assert(none((n - 1) as nat).push(None) =~= none(n));
    } else {
        assert(none(0) =~= Seq::empty());
    }
}

proof fn rows_with_themselves(f: nat, around: Surroundings, s: Unified, t: Ty)
    requires
        is_row(t),
        valid(t),
        without_variables(t),
        f + 2 >= depth(t),
    ensures
        zipped_rows(f, around, s, t, t) == Some((s, Attempt::Matched(None))),
    decreases t, 0nat,
{
    parts_decrease(t);
    let part = row_part(t);
    match t {
        Ty::ExtendTypeRow(types, inner) => {
            fields_same_as_themselves(types);
            parts_decrease(*inner);
            if let Ty::ExtendRow(fields, rest) = *inner {
                assert(valid(*inner) && without_variables(*inner));
                assert(depth(*inner) == 2 + depth(*rest) + depth_fields(fields, fields.len()));
                fields_with_themselves(f, around, s, fields, fields.len());
                matched_with_itself(f, around, s, *rest);
            } else {
                assert(none(0) =~= Seq::empty());
                matched_with_itself(f, around, s, *inner);
            }
        },
        Ty::ExtendRow(fields, rest) => {
            fields_with_themselves(f, around, s, fields, fields.len());
            matched_with_itself(f, around, s, *rest);
        },
        _ => {},
    }
    nothing_new(part.fields.len());
    assert(same_names(part.fields, part.fields));
}

proof fn parts_with_themselves(f: nat, around: Surroundings, s: Unified, t: Ty)
    requires
        valid(t),
        without_variables(t),
        f + 1 >= depth(t),
    ensures
        zipped_parts(f, around, s, t, t) == Some((s, Attempt::Matched(None))),
    decreases t, 1nat,
{
    parts_decrease(t);
    let g = (f - 1) as nat;
    match t {
        Ty::App(h, args) => {
            matched_with_itself(g, around, s, *h);
            all_with_themselves(g, around, s, args, args.len());
            nothing_new(args.len());
            assert(zipped_applications(g, around, s, *h, args, *h, args) == Some(
                (s, Attempt::Matched(None)),
            ));
        },
        Ty::Function(_, arg, ret) => {
            matched_with_itself(g, around, s, *arg);
            matched_with_itself(g, around, s, *ret);
        },
        Ty::Record(row) => {
            matched_with_itself(g, around, Unified { context: Some((t, t)), ..s }, *row);
        },
        _ => {
            if is_row(t) {
                rows_with_themselves(g, around, s, t);
            } else {
                same_as_itself(t);
            }
        },
    }
}

/// A type without variables unifies with itself: nothing is bound, nothing is reported, and the type
/// stays as it is.
pub proof fn unifies_with_itself(around: Surroundings, s: Unified, t: Ty)
    requires
        valid(t),
        without_variables(t),
    ensures
        unified(around, s, t, t) == Some((s, None::<Ty>)),
{
    matched_with_itself(depth(t), around, s, t);
    unified_by(depth(t), around, s, t, t);
}

} // verus!
