//! Replacing types by what a function makes of them.

use vstd::prelude::*;
use crate::types::flags::{has_flag, Flags};
use crate::types::model::{parts_decrease, FieldTy, Ty};
use crate::types::query::extend_types;
use crate::types::walk::{new_or, opt_view};
use crate::types::{
    app_ty, clone_generics, clone_type_fields, fields_view, forall_ty, types_view, ArcType, Field,
    Type,
};

verus! {

/// The types in `t` that are replaced one by one, in order.
pub open spec fn places(t: Ty) -> Seq<Ty> {
    match t {
        Ty::Forall(_, x) => seq![*x],
        Ty::Record(x) => seq![*x],
        Ty::Variant(x) => seq![*x],
        Ty::Effect(x) => seq![*x],
        Ty::Function(_, arg, ret) => seq![*arg, *ret],
        Ty::App(f, args) => seq![*f] + args,
        Ty::ExtendRow(fields, rest) => fields.map_values(|field: FieldTy| field.typ).push(*rest),
        Ty::ExtendTypeRow(_, rest) => seq![*rest],
        _ => Seq::empty(),
    }
}

/// What stands at the places of `t`: the new types, and the old ones where there is none.
pub open spec fn replaced_places(t: Ty, news: Seq<Option<Ty>>) -> Seq<Ty> {
    Seq::new(places(t).len(), |i: int| new_or(news[i], places(t)[i]))
}

/// `t` with the new types at its places, or nothing if there is no new type.
pub open spec fn merged(t: Ty, news: Seq<Option<Ty>>) -> Option<Ty> {
    let us = replaced_places(t, news);
    if exists|i: int| 0 <= i < news.len() && (#[trigger] news[i]) is Some {
        Some(
            match t {
                Ty::Forall(params, _) => forall_ty(params, us[0]),
                Ty::Record(_) => Ty::Record(Box::new(us[0])),
                Ty::Variant(_) => Ty::Variant(Box::new(us[0])),
                Ty::Effect(_) => Ty::Effect(Box::new(us[0])),
                Ty::Function(arg_type, _, _) => Ty::Function(
                    arg_type,
                    Box::new(us[0]),
                    Box::new(us[1]),
                ),
                Ty::App(_, _) => app_ty(us[0], us.skip(1)),
                Ty::ExtendRow(fields, _) => Ty::ExtendRow(
                    Seq::new(fields.len(), |i: int| FieldTy { name: fields[i].name, typ: us[i] }),
                    Box::new(us.last()),
                ),
                Ty::ExtendTypeRow(types, _) => Ty::ExtendTypeRow(types, Box::new(us[0])),
                _ => t,
            },
        )
    } else {
        None
    }
}

/// `f` may return `new` for `t`.
pub open spec fn replaces<F: Fn(&ArcType) -> Option<ArcType>>(
    f: F,
    t: Ty,
    new: Option<Ty>,
) -> bool {
    exists|from: &ArcType, to: Option<ArcType>|
        from@ == t && opt_view(to) == new && #[trigger] call_ensures(f, (from,), to)
}

/// What `f` may return for which types.
pub open spec fn answers<F: Fn(&ArcType) -> Option<ArcType>>(f: F) -> spec_fn(
    Ty,
    Option<Ty>,
) -> bool {
    |t: Ty, new: Option<Ty>| replaces(f, t, new)
}

/// `news` may be the answers for `ts`, one by one.
pub open spec fn replaces_all(
    answer: spec_fn(Ty, Option<Ty>) -> bool,
    ts: Seq<Ty>,
    news: Seq<Option<Ty>>,
) -> bool {
    &&& news.len() == ts.len()
    &&& forall|i: int| 0 <= i < news.len() ==> answer(ts[i], #[trigger] news[i])
}

/// The second type if there is one, else the first.
pub open spec fn later(first: Option<Ty>, second: Option<Ty>) -> Option<Ty> {
    match second {
        Some(t) => Some(t),
        None => first,
    }
}

proof fn places_decrease(t: Ty)
    ensures
        forall|i: int| 0 <= i < places(t).len() ==> decreases_to!(t => #[trigger] places(t)[i]),
{
    parts_decrease(t);
    assert forall|i: int| 0 <= i < places(t).len() implies decreases_to!(
        t => #[trigger] places(t)[i]
    ) by {
        match t {
            Ty::App(_, args) => {
                if i > 0 {
                    assert(decreases_to!(args => args[i - 1]));
                }
            },
            Ty::ExtendRow(fields, _) => {
                if i < fields.len() {
                    assert(decreases_to!(fields => fields[i]));
                    assert(decreases_to!(fields[i] => fields[i].typ));
                }
            },
            _ => {},
        }
    }
}

/// If `t` is one of those that are `asked` about, the types in it are visited first, and then comes
/// the answer for what `t` has become. `new` may be the type that replaces `t`.
pub open spec fn visits(
    answer: spec_fn(Ty, Option<Ty>) -> bool,
    asked: spec_fn(Ty) -> bool,
    t: Ty,
    new: Option<Ty>,
) -> bool
    decreases t,
    via visits_ends
{
    if !asked(t) {
        new is None
    } else {
        exists|news: Seq<Option<Ty>>, last: Option<Ty>| #[trigger]
            later(merged(t, news), last) == new && news.len() == places(t).len() && (forall|i: int|
                0 <= i < places(t).len() ==> visits(answer, asked, #[trigger] places(t)[i], news[i]))
                && answer(new_or(merged(t, news), t), last)
    }
}

#[via_fn]
proof fn visits_ends(
    answer: spec_fn(Ty, Option<Ty>) -> bool,
    asked: spec_fn(Ty) -> bool,
    t: Ty,
    new: Option<Ty>,
) {
    places_decrease(t);
}

/// Those are asked about in which a sort of `mask` occurs.
pub open spec fn with_flags(mask: u8) -> spec_fn(Ty) -> bool {
    |t: Ty| has_flag(t, mask)
}

/// All types are asked about.
pub open spec fn every_type() -> spec_fn(Ty) -> bool {
    |t: Ty| true
}

/// Where the answer is always that there is nothing to replace, a type stays as it is.
pub proof fn nothing_replaced(
    answer: spec_fn(Ty, Option<Ty>) -> bool,
    asked: spec_fn(Ty) -> bool,
    t: Ty,
    new: Option<Ty>,
)
    requires
        visits(answer, asked, t, new),
        forall|t: Ty, new: Option<Ty>| #[trigger] answer(t, new) ==> new is None,
    ensures
        new is None,
    decreases t,
{
    if asked(t) {
        places_decrease(t);
        let (news, last) = choose|news: Seq<Option<Ty>>, last: Option<Ty>| #[trigger]
            later(merged(t, news), last) == new && news.len() == places(t).len() && (forall|i: int|
                0 <= i < places(t).len() ==> visits(answer, asked, #[trigger] places(t)[i], news[i]))
                && answer(new_or(merged(t, news), t), last);
        assert forall|i: int| 0 <= i < news.len() implies (#[trigger] news[i]) is None by {
            assert(visits(answer, asked, places(t)[i], news[i]));
            nothing_replaced(answer, asked, places(t)[i], news[i]);
        }
    }
}

/// The types at the places of `typ`.
fn places_of(typ: &ArcType) -> (res: Vec<ArcType>)
    ensures
        types_view(res@) == places(typ@),
{
    let mut res: Vec<ArcType> = Vec::new();
    match typ.as_type() {
        Type::Forall(_, x) | Type::Record(x) | Type::Variant(x) | Type::Effect(x) => {
            res.push(x.clone());
            assert(types_view(res@) =~= seq![x@]);
        },
        Type::Function(_, arg, ret) => {
            res.push(arg.clone());
            res.push(ret.clone());
            assert(types_view(res@) =~= seq![arg@, ret@]);
        },
        Type::App(f, args) => {
            res.push(f.clone());
            extend_types(&mut res, args);
            assert(types_view(res@) =~= seq![f@] + types_view(args@));
        },
        Type::ExtendRow { fields, rest } => {
            let mut i: usize = 0;
            while i < fields.len()
                invariant
                    i <= fields@.len(),
                    res@.len() == i,
                    forall|j: int| 0 <= j < i ==> (#[trigger] res@[j])@ == fields@[j].typ@,
                decreases fields@.len() - i,
            {
                res.push(fields[i].typ.clone());
                i += 1;
            }
            res.push(rest.clone());
            assert(types_view(res@) =~= fields_view(fields@).map_values(
                |field: FieldTy| field.typ,
            ).push(rest@));
        },
        Type::ExtendTypeRow { types: _, rest } => {
            res.push(rest.clone());
            assert(types_view(res@) =~= seq![rest@]);
        },
        _ => {
            assert(types_view(res@) =~= Seq::<Ty>::empty());
        },
    }
    res
}

pub open spec fn opts_view(types: Seq<Option<ArcType>>) -> Seq<Option<Ty>> {
    types.map_values(|t: Option<ArcType>| opt_view(t))
}

/// `typ` with the new types at its places, or nothing if there is no new type.
fn merge(typ: &ArcType, news: Vec<Option<ArcType>>) -> (res: Option<ArcType>)
    requires
        news@.len() == places(typ@).len(),
    ensures
        opt_view(res) == merged(typ@, opts_view(news@)),
{
    let ghost all = opts_view(news@);
    let mut us = places_of(typ);
    let ghost ts = places(typ@);
    assert(us@.len() == types_view(us@).len());
    let mut changed = false;
    let mut i: usize = 0;
    while i < news.len()
        invariant
            i <= news@.len(),
            all == opts_view(news@),
            us@.len() == news@.len(),
            ts.len() == news@.len(),
            changed == exists|j: int| 0 <= j < i && (#[trigger] all[j]) is Some,
            forall|j: int|
                0 <= j < ts.len() ==> (#[trigger] us@[j])@ == if j < i {
                    new_or(all[j], ts[j])
                } else {
                    ts[j]
                },
        decreases news@.len() - i,
    {
        assert(all[i as int] == opt_view(news@[i as int]));
        if let Some(new) = &news[i] {
            us.set(i, new.clone());
            changed = true;
        }
        i += 1;
    }
    if !changed {
        return None;
    }
    let ghost placed = replaced_places(typ@, all);
    assert(types_view(us@) =~= placed);
    Some(
        match typ.as_type() {
            Type::Forall(params, _) => Type::forall_(clone_generics(params), us.remove(0)),
            Type::Record(_) => ArcType::new(Type::Record(us.remove(0))),
            Type::Variant(_) => ArcType::new(Type::Variant(us.remove(0))),
            Type::Effect(_) => ArcType::new(Type::Effect(us.remove(0))),
            Type::Function(arg_type, _, _) => {
                let arg = us.remove(0);
                ArcType::new(Type::Function(*arg_type, arg, us.remove(0)))
            },
            Type::App(_, _) => {
                let f = us.remove(0);
                assert(types_view(us@) =~= placed.skip(1));
                Type::app(f, us)
            },
            Type::ExtendRow { fields, rest: _ } => {
                assert(fields_view(fields@).len() == fields@.len());
                let mut out: Vec<Field> = Vec::new();
                let mut i: usize = 0;
                while i < fields.len()
                    invariant
                        i <= fields@.len(),
                        us@.len() == fields@.len() + 1,
                        out@.len() == i,
                        forall|j: int|
                            0 <= j < i ==> (#[trigger] out@[j]).name@ == fields@[j].name@
                                && out@[j].typ@ == us@[j]@,
                    decreases fields@.len() - i,
                {
                    out.push(Field { name: fields[i].name.clone(), typ: us[i].clone() });
                    i += 1;
                }
                let rest = us.remove(i);
                let ghost old_fields = fields_view(fields@);
                assert(fields_view(out@) =~= Seq::new(
                    old_fields.len(),
                    |i: int| FieldTy { name: old_fields[i].name, typ: placed[i] },
                ));
                ArcType::new(Type::ExtendRow { fields: out, rest })
            },
            Type::ExtendTypeRow { types, rest: _ } => ArcType::new(
                Type::ExtendTypeRow { types: clone_type_fields(types), rest: us.remove(0) },
            ),
            _ => typ.clone(),
        },
    )
}

/// Leaves it to the function how to go through the types in a type: it is asked about the type as a
/// whole.
pub struct ControlVisitation<F>(pub F);

impl<F: Fn(&ArcType) -> Option<ArcType>> ControlVisitation<F> {
    /// The type that replaces `typ`, if any.
    pub fn visit(&self, typ: &ArcType) -> (res: Option<ArcType>)
        requires
            call_requires(self.0, (typ,)),
        ensures
            answers(self.0)(typ@, opt_view(res)),
    {
        let res = (self.0)(typ);
        assert(replaces(self.0, typ@, opt_view(res)));
        res
    }

    /// Asks about the types that `typ` is directly made of. Returns nothing if none of them is
    /// replaced.
    pub fn walk_move_parts(&self, typ: &ArcType) -> (res: Option<ArcType>)
        requires
            forall|from: &ArcType| #[trigger] call_requires(self.0, (from,)),
        ensures
            exists|news: Seq<Option<Ty>>| #[trigger]
                replaces_all(answers(self.0), places(typ@), news) && opt_view(res) == merged(
                    typ@,
                    news,
                ),
    {
        let all = places_of(typ);
        let mut news: Vec<Option<ArcType>> = Vec::new();
        let mut i: usize = 0;
        while i < all.len()
            invariant
                i <= all@.len(),
                news@.len() == i,
                forall|from: &ArcType| #[trigger] call_requires(self.0, (from,)),
                forall|j: int|
                    0 <= j < i ==> answers(self.0)(all@[j]@, opt_view(#[trigger] news@[j])),
            decreases all@.len() - i,
        {
            news.push(self.visit(&all[i]));
            i += 1;
        }
        proof {
            let made = opts_view(news@);
            let ts = places(typ@);
            assert(types_view(all@).len() == all@.len());
            assert forall|i: int| 0 <= i < made.len() implies answers(self.0)(
                ts[i],
                #[trigger] made[i],
            ) by {
                assert(ts[i] == all@[i]@);
                assert(made[i] == opt_view(news@[i]));
            }
            assert(replaces_all(answers(self.0), ts, made));
        }
        merge(typ, news)
    }
}

/// What replaces `typ`, if anything, where `f` is asked about each type in it, after those that it is
/// made of and about what it has become then.
fn visit_all<F: Fn(&ArcType) -> Option<ArcType>>(typ: &ArcType, f: &F) -> (res: Option<ArcType>)
    requires
        forall|from: &ArcType| #[trigger] call_requires(*f, (from,)),
    ensures
        visits(answers(*f), every_type(), typ@, opt_view(res)),
    decreases typ@,
{
    let all = places_of(typ);
    let ghost ts = places(typ@);
    let mut news: Vec<Option<ArcType>> = Vec::new();
    let mut i: usize = 0;
    proof {
        places_decrease(typ@);
    }
    while i < all.len()
        invariant
            i <= all@.len(),
            types_view(all@) == ts,
            ts == places(typ@),
            forall|j: int| 0 <= j < ts.len() ==> decreases_to!(typ@ => #[trigger] ts[j]),
            news@.len() == i,
            forall|from: &ArcType| #[trigger] call_requires(*f, (from,)),
            forall|j: int|
                0 <= j < i ==> visits(
                    answers(*f),
                    every_type(),
                    all@[j]@,
                    opt_view(#[trigger] news@[j]),
                ),
        decreases all@.len() - i,
    {
        assert(ts[i as int] == all@[i as int]@);
        news.push(visit_all(&all[i], f));
        i += 1;
    }
    let ghost made = opts_view(news@);
    let new = merge(typ, news);
    let last = match &new {
        Some(new) => f(new),
        None => f(typ),
    };
    proof {
        assert(types_view(all@).len() == all@.len());
        assert forall|i: int| 0 <= i < ts.len() implies visits(
            answers(*f),
            every_type(),
            #[trigger] places(typ@)[i],
            made[i],
        ) by {
            assert(ts[i] == all@[i]@);
            assert(made[i] == opt_view(news@[i]));
        }
        assert(replaces(*f, new_or(merged(typ@, made), typ@), opt_view(last)));
        assert(visits(
            answers(*f),
            every_type(),
            typ@,
            later(merged(typ@, made), opt_view(last)),
        ));
    }
    match last {
        Some(last) => Some(last),
        None => new,
    }
}

/// Walks through a type calling `f` on each inner type. If `f` return `Some` the type is replaced.
pub fn walk_move_type<F: Fn(&ArcType) -> Option<ArcType>>(typ: ArcType, f: F) -> (res: ArcType)
    requires
        forall|from: &ArcType| #[trigger] call_requires(f, (from,)),
    ensures
        exists|new: Option<Ty>| #[trigger]
            visits(answers(f), every_type(), typ@, new) && res@ == new_or(new, typ@),
{
    match visit_all(&typ, &f) {
        Some(new) => new,
        None => typ,
    }
}

/// Asks about each type in which one of the sorts occurs, after the types in it.
pub struct FlagsVisitor<F>(pub Flags, pub F);

impl<F: Fn(&ArcType) -> Option<ArcType>> FlagsVisitor<F> {
    /// The type that replaces `typ`, if any.
    pub fn visit(&self, typ: &ArcType) -> (res: Option<ArcType>)
        requires
            forall|from: &ArcType| #[trigger] call_requires(self.1, (from,)),
        ensures
            visits(answers(self.1), with_flags(self.0.bits()), typ@, opt_view(res)),
        decreases typ@,
    {
        let flags = typ.flags();
        let ghost mask = self.0.bits();
        proof {
            let (a, b) = (self.0.bits(), flags.bits());
            assert(a & b == b & a) by (bit_vector);
        }
        if !self.0.intersects(flags) {
            return None;
        }
        let all = places_of(typ);
        let ghost ts = places(typ@);
        let mut news: Vec<Option<ArcType>> = Vec::new();
        let mut i: usize = 0;
        proof {
            places_decrease(typ@);
        }
        while i < all.len()
            invariant
                i <= all@.len(),
                types_view(all@) == ts,
                ts == places(typ@),
                forall|j: int| 0 <= j < ts.len() ==> decreases_to!(typ@ => #[trigger] ts[j]),
                news@.len() == i,
                forall|from: &ArcType| #[trigger] call_requires(self.1, (from,)),
                forall|j: int|
                    0 <= j < i ==> visits(
                        answers(self.1),
                        with_flags(self.0.bits()),
                        all@[j]@,
                        opt_view(#[trigger] news@[j]),
                    ),
            decreases all@.len() - i,
        {
            assert(ts[i as int] == all@[i as int]@);
            news.push(self.visit(&all[i]));
            i += 1;
        }
        let ghost made = opts_view(news@);
        let new = merge(typ, news);
        let last = match &new {
            Some(new) => (self.1)(new),
            None => (self.1)(typ),
        };
        proof {
            assert(types_view(all@).len() == all@.len());
            assert forall|i: int| 0 <= i < ts.len() implies visits(
                answers(self.1),
                with_flags(mask),
                #[trigger] places(typ@)[i],
                made[i],
            ) by {
                assert(ts[i] == all@[i]@);
                assert(made[i] == opt_view(news@[i]));
            }
            assert(replaces(self.1, new_or(merged(typ@, made), typ@), opt_view(last)));
            assert(visits(
                answers(self.1),
                with_flags(mask),
                typ@,
                later(merged(typ@, made), opt_view(last)),
            ));
        }
        match last {
            Some(last) => Some(last),
            None => new,
        }
    }
}

/// The type that `f` replaces `typ` by, if any.
pub fn visit_type_opt<F: Fn(&ArcType) -> Option<ArcType>>(
    typ: &ArcType,
    f: &FlagsVisitor<F>,
) -> (res: Option<ArcType>)
    requires
        forall|from: &ArcType| #[trigger] call_requires(f.1, (from,)),
    ensures
        visits(answers(f.1), with_flags(f.0.bits()), typ@, opt_view(res)),
{
    f.visit(typ)
}

} // verus!
