//! Unification of types.

use vstd::prelude::*;
use crate::kind::Kind;
use crate::resolve::{expanded, remove_alias, removed, AliasRemover, Removed, TypeEnv};
use crate::substitution::{
    actual, lowered, lowered_settles, occurs, occurs_settles, Subst, Substitution,
};
use crate::symbol::Symbol;
use crate::symbol_map::SymbolMap;
use crate::text::join;
use crate::types::display::{pretty_print, printable, type_text, Printer};
use crate::types::model::{same_fields, same_type, AliasTy, FieldTy, GenericTy, Ty};
use crate::types::query::{alias_name, name_of};
use crate::types::rows::{row_fields, row_iter, row_rest, type_field_iter, type_fields};
use crate::types::walk::{map_view, new_or, opt_view};
use crate::types::{
    app_ty, clone_fields, clone_type_fields, clone_types, fields_view, row_ty, symbols_view,
    type_fields_view, type_row_ty, types_view, ArcType, Field, Type, TypeField, TypeVariable,
};

verus! {

/// Why types do not unify.
pub enum Fault {
    UndefinedType(Seq<char>),
    Mismatch(Ty, Ty),
    Occurs(TypeVariable, Ty),
    FieldMismatch(Seq<char>, Seq<char>),
    SelfRecursive(Seq<char>),
    UnableToGeneralize(Seq<char>),
    MissingFields(Ty, Seq<Seq<char>>),
}

/// How far unification has come.
pub struct Unified {
    pub subst: Subst,
    /// The levels of the variables.
    pub levels: Seq<u32>,
    pub faults: Seq<Fault>,
    /// The aliases that are being expanded.
    pub reduced: Seq<Seq<char>>,
    /// The records whose fields are being unified.
    pub context: Option<(Ty, Ty)>,
}

/// What unification knows from outside.
pub struct Surroundings {
    pub infos: Map<Seq<char>, AliasTy>,
    /// In a signature, what its parameters were instantiated with, and the level of its scope.
    pub signature: Option<(Map<Seq<char>, Ty>, u32)>,
}

impl Unified {
    pub open spec fn fail(self, fault: Fault) -> Unified {
        Unified { faults: self.faults.push(fault), ..self }
    }
}

/// A new variable.
pub open spec fn fresh(s: Unified) -> Option<(Unified, Ty)> {
    if s.subst.len() < u32::MAX {
        Some(
            (
                Unified {
                    subst: s.subst.push(None),
                    levels: s.levels.push((s.subst.len() + 1) as u32),
                    ..s
                },
                Ty::Variable(
                    TypeVariable {
                        kind: std::sync::Arc::new(Kind::Type),
                        id: s.subst.len() as u32,
                    },
                ),
            ),
        )
    } else {
        None
    }
}

/// What comes of an attempt: the new type where it is not the left one, or a fault.
pub enum Attempt {
    Matched(Option<Ty>),
    Failed(Fault),
}

/// What comes of two types, and how far unification has come then.
pub type Step = Option<(Unified, Option<Ty>)>;

/// What comes of an attempt, and how far unification has come then.
pub type Tried = Option<(Unified, Attempt)>;

/// The variable `var` bound to `t`, and `new` as the result.
pub open spec fn united(f: nat, s: Unified, var: TypeVariable, t: Ty, new: Option<Ty>) -> Tried {
    if var.id < s.subst.len() <= u32::MAX {
        match occurs(f, s.subst, var.id, t) {
            Some(true) => Some((s, Attempt::Failed(Fault::Occurs(var, t)))),
            Some(false) => Some(
                (
                    Unified {
                        subst: s.subst.update(var.id as int, Some(t)),
                        levels: lowered(f, s.subst, s.levels, var.id, t),
                        ..s
                    },
                    Attempt::Matched(new),
                ),
            ),
            None => None,
        }
    } else {
        None
    }
}

/// What a parameter of a signature stands for, as seen from the variable `var`.
pub enum Parameter {
    Is(Ty),
    Escapes,
}

pub open spec fn parameter(
    around: Surroundings,
    param: GenericTy,
    var: TypeVariable,
) -> Parameter {
    match around.signature {
        Some((variables, level)) => if variables.dom().contains(param.id) {
            match variables[param.id] {
                // The generic variable is defined outside the current scope. Use the type variable
                // instantiated from the generic and unify with that
                Ty::Variable(outer) => if outer.id < level {
                    Parameter::Is(variables[param.id])
                } else if outer.id > var.id {
                    Parameter::Escapes
                } else {
                    Parameter::Is(Ty::Generic(param))
                },
                _ => Parameter::Is(Ty::Generic(param)),
            }
        } else {
            Parameter::Is(Ty::Generic(param))
        },
        None => Parameter::Is(Ty::Generic(param)),
    }
}

/// An attempt that failed is reported, and a new variable stands for the result.
pub open spec fn settled(tried: Tried) -> Step {
    match tried {
        Some((s, Attempt::Matched(new))) => Some((s, new)),
        Some((s, Attempt::Failed(fault))) => match fresh(s.fail(fault)) {
            Some((s, var)) => Some((s, Some(var))),
            None => None,
        },
        None => None,
    }
}

/// Matches `l` and `r`, in at most `f` steps from the outside to the inside.
pub open spec fn matched(f: nat, around: Surroundings, s: Unified, l: Ty, r: Ty) -> Step
    decreases f, 9nat,
{
    if f == 0 {
        None
    } else {
        match (actual(s.subst, l), actual(s.subst, r)) {
            (Some(l), Some(r)) => match (l, r) {
                (Ty::Variable(a), Ty::Variable(b)) if a.id == b.id => Some((s, None)),
                (Ty::Generic(param), Ty::Variable(var)) => match parameter(around, param, var) {
                    Parameter::Is(left) => settled(united(f, s, var, left, None)),
                    Parameter::Escapes => Some(
                        (s.fail(Fault::UnableToGeneralize(param.id)), None),
                    ),
                },
                (_, Ty::Variable(var)) => settled(united(f, s, var, l, None)),
                (Ty::Variable(var), _) => settled(united(f, s, var, r, Some(r))),
                _ => settled(zipped((f - 1) as nat, around, s, l, r)),
            },
            _ => None,
        }
    }
}

/// Expands `t` in search for a type of the name `goal`. `did` tells whether it was expanded already.
pub open spec fn alias_search(
    f: nat,
    infos: Map<Seq<char>, AliasTy>,
    reduced: Seq<Seq<char>>,
    t: Ty,
    goal: Seq<char>,
    did: bool,
) -> Option<(Seq<Seq<char>>, Result<Option<Ty>, ()>)>
    decreases f,
{
    match name_of(t) {
        None => Some((reduced, Ok(None))),
        Some(name) => if alias_name(t) is Some && reduced.contains(alias_name(t)->0) {
            Some((reduced, Err(())))
        } else if name == goal {
            Some(
                (
                    reduced,
                    Ok(
                        if did {
                            Some(t)
                        } else {
                            None
                        },
                    ),
                ),
            )
        } else {
            match (expanded(infos, t), alias_name(t)) {
                (Some(next), Some(alias)) => if f == 0 {
                    None
                } else {
                    alias_search((f - 1) as nat, infos, reduced.push(alias), next, goal, true)
                },
                _ => Some((reduced, Ok(None))),
            }
        },
    }
}

/// Expands `t` in search for a type of the name `goal`. If none is found nothing was expanded.
pub open spec fn alias_found(
    f: nat,
    infos: Map<Seq<char>, AliasTy>,
    reduced: Seq<Seq<char>>,
    t: Ty,
    goal: Seq<char>,
) -> Option<(Seq<Seq<char>>, Result<Option<Ty>, ()>)> {
    match alias_search(f, infos, reduced, t, goal, false) {
        Some((after, Ok(Some(t)))) => Some((after, Ok(Some(t)))),
        Some((_, other)) => Some((reduced, other)),
        None => None,
    }
}

/// Two types that have the same alias in their spine, or the types themselves, and whether a type
/// was expanded.
pub struct CommonAlias {
    pub reduced: Seq<Seq<char>>,
    pub l: Ty,
    pub r: Ty,
    pub through: bool,
}

/// Expands `l` or `r` to find a common alias.
pub open spec fn common_alias(
    f: nat,
    infos: Map<Seq<char>, AliasTy>,
    reduced: Seq<Seq<char>>,
    l: Ty,
    r: Ty,
) -> Option<CommonAlias> {
    let kept = CommonAlias { reduced, l, r, through: false };
    let left = match name_of(r) {
        Some(goal) => alias_found(f, infos, reduced, l, goal),
        None => Some((reduced, Ok(None))),
    };
    match left {
        None => None,
        Some((after, Ok(Some(new)))) => Some(
            CommonAlias { reduced: after, l: new, r, through: true },
        ),
        Some((_, Err(()))) => Some(kept),
        Some((after, Ok(None))) => match name_of(l) {
            None => Some(CommonAlias { reduced: after, ..kept }),
            Some(goal) => match alias_found(f, infos, after, r, goal) {
                None => None,
                Some((after, Ok(Some(new)))) => Some(
                    CommonAlias { reduced: after, l, r: new, through: true },
                ),
                Some((after, Ok(None))) => Some(CommonAlias { reduced: after, ..kept }),
                Some((after, Err(()))) => Some(CommonAlias { reduced: after, ..kept }),
            },
        },
    }
}

/// Matches two types of which neither is a variable.
pub open spec fn zipped(f: nat, around: Surroundings, s: Unified, l: Ty, r: Ty) -> Tried
    decreases f, 8nat,
{
    match common_alias(f, around.infos, s.reduced, l, r) {
        None => None,
        Some(common) => match zipped_parts(
            f,
            around,
            Unified { reduced: common.reduced, ..s },
            common.l,
            common.r,
        ) {
            None => None,
            Some((after, attempt)) => Some(
                (
                    Unified { reduced: cut(after.reduced, s.reduced.len()), ..after },
                    // If the match was done through an alias the unified type is likely less
                    // precise than the types themselves
                    match attempt {
                        Attempt::Matched(new) => Attempt::Matched(
                            if common.through {
                                None
                            } else {
                                new
                            },
                        ),
                        failed => failed,
                    },
                ),
            ),
        },
    }
}

/// The first `n` of `names`, or all of them.
pub open spec fn cut(names: Seq<Seq<char>>, n: nat) -> Seq<Seq<char>> {
    if n <= names.len() {
        names.take(n as int)
    } else {
        names
    }
}

/// Matches the first `n` of `ls` and `rs` one by one.
pub open spec fn matched_all(
    f: nat,
    around: Surroundings,
    s: Unified,
    ls: Seq<Ty>,
    rs: Seq<Ty>,
    n: nat,
) -> Option<(Unified, Seq<Option<Ty>>)>
    decreases f, 10nat, n,
{
    if n == 0 || n > ls.len() || n > rs.len() {
        Some((s, Seq::empty()))
    } else {
        match matched_all(f, around, s, ls, rs, (n - 1) as nat) {
            None => None,
            Some((s, news)) => match matched(f, around, s, ls[n - 1], rs[n - 1]) {
                None => None,
                Some((s, new)) => Some((s, news.push(new))),
            },
        }
    }
}

/// One of `news` is a new type.
pub open spec fn any_new(news: Seq<Option<Ty>>) -> bool {
    exists|i: int| 0 <= i < news.len() && (#[trigger] news[i]) is Some
}

/// `olds` with the new types in their places. If there are none `olds` stays as it is.
pub open spec fn updated(olds: Seq<Ty>, news: Seq<Option<Ty>>) -> Seq<Ty> {
    if any_new(news) {
        Seq::new(news.len(), |i: int| new_or(news[i], olds[i]))
    } else {
        olds
    }
}

/// `olds` with the new types in their places. If there are none `olds` stays as it is.
pub open spec fn updated_fields(olds: Seq<FieldTy>, news: Seq<Option<Ty>>) -> Seq<FieldTy> {
    if any_new(news) {
        Seq::new(
            news.len(),
            |i: int| FieldTy { name: olds[i].name, typ: new_or(news[i], olds[i].typ) },
        )
    } else {
        olds
    }
}

pub open spec fn field_types(fields: Seq<FieldTy>) -> Seq<Ty> {
    fields.map_values(|field: FieldTy| field.typ)
}

pub open spec fn field_names(fields: Seq<FieldTy>) -> Seq<Seq<char>> {
    fields.map_values(|field: FieldTy| field.name)
}

/// A part of a row: associated types, fields and the rest.
pub struct RowPart {
    pub types: Seq<FieldTy>,
    pub fields: Seq<FieldTy>,
    pub rest: Ty,
}

/// The first part of the row `t`.
pub open spec fn row_part(t: Ty) -> RowPart {
    match t {
        Ty::ExtendTypeRow(types, rest) => match *rest {
            Ty::ExtendRow(fields, rest) => RowPart { types, fields, rest: *rest },
            _ => RowPart { types, fields: Seq::empty(), rest: *rest },
        },
        Ty::ExtendRow(fields, rest) => RowPart { types: Seq::empty(), fields, rest: *rest },
        _ => RowPart { types: Seq::empty(), fields: Seq::empty(), rest: t },
    }
}

pub open spec fn is_row(t: Ty) -> bool {
    t is ExtendRow || t is ExtendTypeRow
}

/// The row made of `types`, `fields` and `rest`.
pub open spec fn full_row(types: Seq<FieldTy>, fields: Seq<FieldTy>, rest: Ty) -> Ty {
    type_row_ty(types, row_ty(fields, rest))
}

pub open spec fn min(a: nat, b: nat) -> nat {
    if a <= b {
        a
    } else {
        b
    }
}

/// `t` applied to the first `n` of `args`.
pub open spec fn apply_first(t: Ty, args: Seq<Ty>, n: int) -> Ty {
    app_ty(t, args.take(n))
}

/// The function part and the arguments of an application that are matched first and one by one.
pub open spec fn aligned(l: Ty, ls: Seq<Ty>, r: Ty, rs: Seq<Ty>) -> (Ty, Seq<Ty>, Ty, Seq<Ty>) {
    if ls.len() == rs.len() {
        (l, ls, r, rs)
    } else if ls.len() < rs.len() {
        let offset = rs.len() - ls.len();
        (l, ls, apply_first(r, rs, offset), rs.skip(offset))
    } else {
        let offset = ls.len() - rs.len();
        (apply_first(l, ls, offset), ls.skip(offset), r, rs)
    }
}

/// Matches `lf` applied to `ls` and `rf` applied to `rs`.
pub open spec fn zipped_applications(
    f: nat,
    around: Surroundings,
    s: Unified,
    lf: Ty,
    ls: Seq<Ty>,
    rf: Ty,
    rs: Seq<Ty>,
) -> Tried
    decreases f, 11nat,
{
    let (lf2, ls2, rf2, rs2) = aligned(lf, ls, rf, rs);
    match matched(f, around, s, lf2, rf2) {
        None => None,
        Some((s, new)) => match matched_all(f, around, s, ls2, rs2, ls2.len()) {
            None => None,
            Some((s, news)) => Some(
                (
                    s,
                    Attempt::Matched(
                        // Where the left side has more arguments the right one is
                        // what the new types are put into, by position
                        if new is Some || any_new(news) {
                            if ls.len() <= rs.len() {
                                Some(app_ty(new_or(new, lf), updated(ls, news)))
                            } else {
                                Some(
                                    app_ty(
                                        new_or(new, rf),
                                        if any_new(news) {
                                            updated(ls2, news)
                                        } else {
                                            rs
                                        },
                                    ),
                                )
                            }
                        } else {
                            None
                        },
                    ),
                ),
            ),
        },
    }
}

/// Matches the parts of two types.
pub open spec fn zipped_parts(f: nat, around: Surroundings, s: Unified, l: Ty, r: Ty) -> Tried
    decreases f, 7nat,
{
    if f == 0 {
        None
    } else {
        let f = (f - 1) as nat;
        match (l, r) {
            (Ty::App(lf, ls), Ty::App(rf, rs)) => zipped_applications(
                f,
                around,
                s,
                *lf,
                ls,
                *rf,
                rs,
            ),
            (Ty::Function(lk, la, lr), Ty::Function(rk, ra, rr)) if lk == rk => match matched(
                f,
                around,
                s,
                *la,
                *ra,
            ) {
                None => None,
                Some((s, new_arg)) => match matched(f, around, s, *lr, *rr) {
                    None => None,
                    Some((s, new_ret)) => Some(
                        (
                            s,
                            Attempt::Matched(
                                if new_arg is Some || new_ret is Some {
                                    Some(
                                        Ty::Function(
                                            lk,
                                            Box::new(new_or(new_arg, *la)),
                                            Box::new(new_or(new_ret, *lr)),
                                        ),
                                    )
                                } else {
                                    None
                                },
                            ),
                        ),
                    ),
                },
            },
            (Ty::Record(lrow), Ty::Record(rrow)) => match matched(
                f,
                around,
                Unified { context: Some((l, r)), ..s },
                *lrow,
                *rrow,
            ) {
                None => None,
                Some((after, new)) => Some(
                    (
                        Unified { context: s.context, ..after },
                        Attempt::Matched(
                            match new {
                                Some(row) => Some(Ty::Record(Box::new(row))),
                                None => None,
                            },
                        ),
                    ),
                ),
            },
            (Ty::Ident(id), Ty::Alias(alias)) if id == alias.data().name => Some(
                (s, Attempt::Matched(Some(r))),
            ),
            (Ty::Alias(alias), Ty::Ident(id)) if id == alias.data().name => Some(
                (s, Attempt::Matched(None)),
            ),
            _ => if is_row(l) && is_row(r) {
                zipped_rows(f, around, s, l, r)
            } else if same_type(l, r) {
                Some((s, Attempt::Matched(None)))
            } else {
                with_alias(f, around, s, l, r)
            },
        }
    }
}

/// The names of the fields are the same, one by one.
pub open spec fn same_names(l: Seq<FieldTy>, r: Seq<FieldTy>) -> bool {
    &&& l.len() == r.len()
    &&& forall|i: int| 0 <= i < l.len() ==> (#[trigger] l[i]).name == r[i].name
}

/// `field` is one of `fields`.
pub open spec fn has_field(fields: Seq<FieldTy>, field: FieldTy) -> bool {
    exists|i: int|
        0 <= i < fields.len() && (#[trigger] fields[i]).name == field.name && same_type(
            fields[i].typ,
            field.typ,
        )
}

/// All of `l` are among `r`.
pub open spec fn has_all(r: Seq<FieldTy>, l: Seq<FieldTy>) -> bool {
    forall|i: int| 0 <= i < l.len() ==> has_field(r, #[trigger] l[i])
}

/// Matches the first `n` of the fields of two rows in order. Different names are a fault.
pub open spec fn matched_in_order(
    f: nat,
    around: Surroundings,
    s: Unified,
    ls: Seq<FieldTy>,
    rs: Seq<FieldTy>,
    n: nat,
) -> Option<(Unified, Seq<Option<Ty>>)>
    decreases f, 10nat, n,
{
    if n == 0 || n > ls.len() || n > rs.len() {
        Some((s, Seq::empty()))
    } else {
        match matched_in_order(f, around, s, ls, rs, (n - 1) as nat) {
            None => None,
            Some((s, news)) => if ls[n - 1].name != rs[n - 1].name {
                Some(
                    (
                        s.fail(Fault::FieldMismatch(ls[n - 1].name, rs[n - 1].name)),
                        news.push(None),
                    ),
                )
            } else {
                match matched(f, around, s, ls[n - 1].typ, rs[n - 1].typ) {
                    None => None,
                    Some((s, new)) => Some((s, news.push(new))),
                }
            },
        }
    }
}

/// The row `part` with the new types and the new rest, if there are any.
pub open spec fn new_row(part: RowPart, news: Seq<Option<Ty>>, new_rest: Option<Ty>) -> Option<Ty> {
    if any_new(news) || new_rest is Some {
        Some(full_row(part.types, updated_fields(part.fields, news), new_or(new_rest, part.rest)))
    } else {
        None
    }
}

/// Matches two rows.
pub open spec fn zipped_rows(f: nat, around: Surroundings, s: Unified, l: Ty, r: Ty) -> Tried
    decreases f, 12nat,
{
    let (lp, rp) = (row_part(l), row_part(r));
    if same_names(lp.fields, rp.fields) && same_fields(lp.types, rp.types) {
        // When the field names of both rows match exactly we special case
        // unification to maximize sharing
        match matched_all(
            f,
            around,
            s,
            field_types(lp.fields),
            field_types(rp.fields),
            lp.fields.len(),
        ) {
            None => None,
            Some((s, news)) => match matched(f, around, s, lp.rest, rp.rest) {
                None => None,
                Some((s, new_rest)) => Some((s, Attempt::Matched(new_row(lp, news, new_rest)))),
            },
        }
    } else if lp.rest is EmptyRow && rp.rest is EmptyRow && lp.fields.len() == rp.fields.len() {
        if !has_all(type_fields(r), type_fields(l)) {
            Some((s, Attempt::Failed(Fault::Mismatch(l, r))))
        } else {
            // For non polymorphic records we need to care about field order as the compiler assumes
            // the order the fields occur in the type determines how to access them
            match matched_in_order(
                f,
                around,
                s,
                lp.fields,
                rp.fields,
                lp.fields.len(),
            ) {
                None => None,
                Some((s, news)) => match matched(f, around, s, lp.rest, rp.rest) {
                    None => None,
                    Some((s, new_rest)) => Some(
                        (s, Attempt::Matched(new_row(lp, news, new_rest))),
                    ),
                },
            }
        }
    } else {
        united_rows(f, around, s, l, r)
    }
}

/// The position of the first of `fields` from `from` on that is named `name`.
pub open spec fn field_named(fields: Seq<FieldTy>, name: Seq<char>, from: int) -> Option<int>
    decreases fields.len() - from,
{
    if from < 0 || from >= fields.len() {
        None
    } else if fields[from].name == name {
        Some(from)
    } else {
        field_named(fields, name, from + 1)
    }
}

/// Those of the first `n` of `l` that `r` has too.
pub open spec fn shared(l: Seq<FieldTy>, r: Seq<FieldTy>, n: nat) -> Seq<FieldTy>
    decreases n,
{
    if n == 0 || n > l.len() {
        Seq::empty()
    } else {
        let before = shared(l, r, (n - 1) as nat);
        if field_named(r, l[n - 1].name, 0) is Some {
            before.push(l[n - 1])
        } else {
            before
        }
    }
}

/// What `r` has in the place of those of the first `n` of `l` that it has too.
pub open spec fn counterparts(l: Seq<FieldTy>, r: Seq<FieldTy>, n: nat) -> Seq<FieldTy>
    decreases n,
{
    if n == 0 || n > l.len() {
        Seq::empty()
    } else {
        let before = counterparts(l, r, (n - 1) as nat);
        match field_named(r, l[n - 1].name, 0) {
            Some(i) => before.push(r[i]),
            None => before,
        }
    }
}

/// Those of the first `n` of `l` that `r` does not have.
pub open spec fn lacking(l: Seq<FieldTy>, r: Seq<FieldTy>, n: nat) -> Seq<FieldTy>
    decreases n,
{
    if n == 0 || n > l.len() {
        Seq::empty()
    } else {
        let before = lacking(l, r, (n - 1) as nat);
        if field_named(r, l[n - 1].name, 0) is None {
            before.push(l[n - 1])
        } else {
            before
        }
    }
}

/// A row that is being put together.
pub struct RowSoFar {
    pub s: Unified,
    pub types: Seq<FieldTy>,
    pub fields: Seq<FieldTy>,
    pub rest: Ty,
}

/// Adds the fields that the left row has and the right row lacks. They are matched with the rest of
/// the right row, if it can be extended.
pub open spec fn extended_right(
    f: nat,
    around: Surroundings,
    row: RowSoFar,
    r: Ty,
    types: Seq<FieldTy>,
    fields: Seq<FieldTy>,
) -> Option<RowSoFar>
    decreases f, 10nat,
{
    if fields.len() == 0 {
        Some(row)
    } else if row_rest(r) is EmptyRow {
        let context = match row.s.context {
            Some((_, r)) => r,
            None => r,
        };
        Some(RowSoFar { s: row.s.fail(Fault::MissingFields(context, field_names(fields))), ..row })
    } else {
        match fresh(row.s) {
            None => None,
            Some((s, var)) => match matched(
                f,
                around,
                s,
                full_row(types, fields, var),
                row_rest(r),
            ) {
                None => None,
                Some((s, _)) => Some(
                    RowSoFar {
                        s,
                        types: row.types + types,
                        fields: row.fields + fields,
                        rest: var,
                    },
                ),
            },
        }
    }
}

/// Adds the fields that the right row has and the left row lacks. They are matched with the rest of
/// the left row, if it can be extended.
pub open spec fn extended_left(
    f: nat,
    around: Surroundings,
    row: RowSoFar,
    l: Ty,
    types: Seq<FieldTy>,
    fields: Seq<FieldTy>,
) -> Option<RowSoFar>
    decreases f, 10nat,
{
    if fields.len() == 0 {
        Some(row)
    } else if row_rest(l) is EmptyRow {
        let context = match row.s.context {
            Some((l, _)) => l,
            None => l,
        };
        Some(RowSoFar { s: row.s.fail(Fault::MissingFields(context, field_names(fields))), ..row })
    } else {
        match fresh(row.s) {
            None => None,
            Some((s, var)) => match matched(
                f,
                around,
                s,
                row_rest(l),
                full_row(types, fields, var),
            ) {
                None => None,
                Some((s, _)) => Some(
                    RowSoFar {
                        s,
                        types: row.types + types,
                        fields: row.fields + fields,
                        rest: var,
                    },
                ),
            },
        }
    }
}

/// Do unification between two rows. Each row is either an extension or empty. Two rows will unify
/// successfully if all fields they have in common unifies and if either record have additional
/// fields not found in the other record, the other record can be extended. A record can be extended
/// if the rest of it is a type variable in which case that variable is unified with the missing
/// fields.
pub open spec fn united_rows(f: nat, around: Surroundings, s: Unified, l: Ty, r: Ty) -> Tried
    decreases f, 11nat,
{
    let (lt, rt) = (type_fields(l), type_fields(r));
    let (lf, rf) = (row_fields(l), row_fields(r));
    let (types, rtypes) = (shared(lt, rt, lt.len()), counterparts(lt, rt, lt.len()));
    if !same_fields(types, rtypes) {
        Some((s, Attempt::Failed(Fault::Mismatch(l, r))))
    } else {
        let both = shared(lf, rf, lf.len());
        let rboth = counterparts(lf, rf, lf.len());
        match matched_all(
            f,
            around,
            s,
            field_types(both),
            field_types(rboth),
            both.len(),
        ) {
            None => None,
            Some((s, news)) => {
                let row = RowSoFar {
                    s,
                    types,
                    fields: updated_fields(both, news),
                    rest: row_rest(r),
                };
                match extended_right(
                    f,
                    around,
                    row,
                    r,
                    lacking(lt, rt, lt.len()),
                    lacking(lf, rf, lf.len()),
                ) {
                    None => None,
                    Some(row) => match extended_left(
                        f,
                        around,
                        row,
                        l,
                        lacking(rt, lt, rt.len()),
                        lacking(rf, lf, rf.len()),
                    ) {
                        None => None,
                        Some(row) => Some(
                            (
                                row.s,
                                Attempt::Matched(Some(full_row(row.types, row.fields, row.rest))),
                            ),
                        ),
                    },
                }
            },
        }
    }
}

/// What is left of `t` when its aliases are removed, and whether there were any.
pub open spec fn without_aliases(
    f: nat,
    infos: Map<Seq<char>, AliasTy>,
    reduced: Seq<Seq<char>>,
    t: Ty,
    changed: bool,
) -> Option<(Seq<Seq<char>>, Result<Option<Ty>, Seq<char>>)>
    decreases f,
{
    let kept = Ok(
        if changed {
            Some(t)
        } else {
            None
        },
    );
    match removed(infos, reduced, t) {
        Removed::Done => Some((reduced, kept)),
        Removed::Stuck(name) => Some((reduced.push(name), kept)),
        Removed::Recursive(name) => Some((reduced, Err(name))),
        Removed::Expanded(name, next) => if f == 0 {
            None
        } else {
            without_aliases((f - 1) as nat, infos, reduced.push(name), next, true)
        },
    }
}

/// As a last ditch effort attempt to unify the types again by expanding the aliases (if the types
/// are alias types).
pub open spec fn with_alias(f: nat, around: Surroundings, s: Unified, l: Ty, r: Ty) -> Tried
    decreases f, 10nat,
{
    match without_aliases(f, around.infos, s.reduced, l, false) {
        None => None,
        Some((reduced, Err(name))) => Some(
            (Unified { reduced, ..s }, Attempt::Failed(Fault::SelfRecursive(name))),
        ),
        Some((reduced, Ok(new_l))) => match without_aliases(f, around.infos, reduced, r, false) {
            None => None,
            Some((reduced, Err(name))) => Some(
                (Unified { reduced, ..s }, Attempt::Failed(Fault::SelfRecursive(name))),
            ),
            Some((reduced, Ok(new_r))) => {
                let s = Unified { reduced, ..s };
                if new_l is None && new_r is None {
                    Some((s, Attempt::Failed(Fault::Mismatch(l, r))))
                } else {
                    match matched(f, around, s, new_or(new_l, l), new_or(new_r, r)) {
                        None => None,
                        Some((s, _)) => Some((s, Attempt::Matched(None))),
                    }
                }
            },
        },
    }
}

/// Why the fields of types, or their names, do not unify.
pub enum TypeError {
    UndefinedType(Symbol),
    FieldMismatch(Symbol, Symbol),
    SelfRecursive(Symbol),
    UnableToGeneralize(Symbol),
    MissingFields(ArcType, Vec<Symbol>),
}

/// Why types do not unify.
pub enum Error {
    TypeMismatch(ArcType, ArcType),
    Occurs(TypeVariable, ArcType),
    Other(TypeError),
}

impl View for TypeError {
    type V = Fault;

    open spec fn view(&self) -> Fault {
        match self {
            TypeError::UndefinedType(id) => Fault::UndefinedType(id@),
            TypeError::FieldMismatch(l, r) => Fault::FieldMismatch(l@, r@),
            TypeError::SelfRecursive(id) => Fault::SelfRecursive(id@),
            TypeError::UnableToGeneralize(id) => Fault::UnableToGeneralize(id@),
            TypeError::MissingFields(typ, fields) => Fault::MissingFields(
                typ@,
                symbols_view(fields@),
            ),
        }
    }
}

impl View for Error {
    type V = Fault;

    open spec fn view(&self) -> Fault {
        match self {
            Error::TypeMismatch(l, r) => Fault::Mismatch(l@, r@),
            Error::Occurs(var, typ) => Fault::Occurs(*var, typ@),
            Error::Other(err) => err@,
        }
    }
}

impl TypeError {
    /// The error that stands for an alias that could not be removed.
    pub fn from_alias(error: crate::resolve::Error) -> (res: TypeError)
        ensures
            res@ == match error {
                crate::resolve::Error::UndefinedType(id) => Fault::UndefinedType(id@),
                crate::resolve::Error::SelfRecursiveAlias(id) => Fault::SelfRecursive(id@),
            },
    {
        match error {
            crate::resolve::Error::UndefinedType(id) => TypeError::UndefinedType(id),
            crate::resolve::Error::SelfRecursiveAlias(id) => TypeError::SelfRecursive(id),
        }
    }
}

/// The faults that `errors` stand for.
pub open spec fn faults(errors: Seq<Error>) -> Seq<Fault> {
    errors.map_values(|error: Error| error@)
}

pub open spec fn context_view(context: Option<(ArcType, ArcType)>) -> Option<(Ty, Ty)> {
    match context {
        Some((l, r)) => Some((l@, r@)),
        None => None,
    }
}

/// The state of unification.
pub struct State<'a, E> {
    env: &'a E,
    /// A stack of which aliases are currently expanded. Used to determine when an alias is
    /// recursively expanded in which case the unification fails.
    reduced_aliases: AliasRemover,
    subs: Substitution,
    record_context: Option<(ArcType, ArcType)>,
    errors: Vec<Error>,
}

/// What the parameters of a signature were instantiated with, if there is one.
struct Signature<'b> {
    variables: Option<&'b SymbolMap<ArcType>>,
    level: u32,
}

impl<'b> Signature<'b> {
    spec fn around(&self, infos: Map<Seq<char>, AliasTy>) -> Surroundings {
        Surroundings {
            infos,
            signature: match self.variables {
                Some(variables) => Some((map_view(variables@), self.level)),
                None => None,
            },
        }
    }
}

impl<'a, E: TypeEnv> View for State<'a, E> {
    type V = Unified;

    closed spec fn view(&self) -> Unified {
        Unified {
            subst: self.subs@,
            levels: self.subs.levels(),
            faults: faults(self.errors@),
            reduced: self.reduced_aliases@,
            context: context_view(self.record_context),
        }
    }
}

/// A field of a row.
trait Named: Sized {
    spec fn field(&self) -> FieldTy;

    fn name(&self) -> (res: &Symbol)
        ensures
            res@ == self.field().name,
    ;

    fn duplicate(&self) -> (res: Self)
        ensures
            res.field() == self.field(),
    ;
}

impl Named for Field {
    spec fn field(&self) -> FieldTy {
        FieldTy { name: self.name@, typ: self.typ@ }
    }

    fn name(&self) -> (res: &Symbol) {
        &self.name
    }

    fn duplicate(&self) -> (res: Field) {
        Field { name: self.name.clone(), typ: self.typ.clone() }
    }
}

impl Named for TypeField {
    spec fn field(&self) -> FieldTy {
        FieldTy { name: self.name@, typ: self.typ@ }
    }

    fn name(&self) -> (res: &Symbol) {
        &self.name
    }

    fn duplicate(&self) -> (res: TypeField) {
        TypeField { name: self.name.clone(), typ: self.typ.clone() }
    }
}

spec fn named_view<T: Named>(fields: Seq<T>) -> Seq<FieldTy> {
    fields.map_values(|field: T| field.field())
}

/// The position of the field `name`.
fn find_field<T: Named>(fields: &Vec<T>, name: &Symbol) -> (res: Option<usize>)
    ensures
        match res {
            Some(i) => i < fields@.len() && field_named(named_view(fields@), name@, 0) == Some(
                i as int,
            ),
            None => field_named(named_view(fields@), name@, 0) is None,
        },
{
    let mut i: usize = 0;
    while i < fields.len()
        invariant
            i <= fields@.len(),
            field_named(named_view(fields@), name@, 0) == field_named(
                named_view(fields@),
                name@,
                i as int,
            ),
        decreases fields@.len() - i,
    {
        if *fields[i].name() == *name {
            return Some(i);
        }
        i += 1;
    }
    None
}

/// The fields of two rows.
struct Gathered<T> {
    missing_from_left: Vec<T>,
    both: Vec<T>,
    counterparts: Vec<T>,
    missing_from_right: Vec<T>,
}

/// Those of `l` that `r` does not have.
fn missing<T: Named>(l: &Vec<T>, r: &Vec<T>) -> (res: Vec<T>)
    ensures
        named_view(res@) == lacking(named_view(l@), named_view(r@), l@.len()),
{
    let mut res: Vec<T> = Vec::new();
    let mut i: usize = 0;
    assert(named_view(res@) =~= lacking(named_view(l@), named_view(r@), 0));
    while i < l.len()
        invariant
            i <= l@.len(),
            named_view(res@) == lacking(named_view(l@), named_view(r@), i as nat),
        decreases l@.len() - i,
    {
        if find_field(r, l[i].name()).is_none() {
            let ghost before = res@;
            res.push(l[i].duplicate());
            assert(named_view(res@) =~= named_view(before).push(named_view(l@)[i as int]));
        }
        i += 1;
    }
    res
}

/// Parts the fields of two rows into those that both have and those that one of them lacks.
fn gather_fields<T: Named>(l: &Vec<T>, r: &Vec<T>) -> (res: Gathered<T>)
    ensures
        named_view(res.missing_from_left@) == lacking(named_view(r@), named_view(l@), r@.len()),
        named_view(res.both@) == shared(named_view(l@), named_view(r@), l@.len()),
        named_view(res.counterparts@) == counterparts(named_view(l@), named_view(r@), l@.len()),
        named_view(res.missing_from_right@) == lacking(named_view(l@), named_view(r@), l@.len()),
{
    let mut both: Vec<T> = Vec::new();
    let mut others: Vec<T> = Vec::new();
    let mut i: usize = 0;
    assert(named_view(both@) =~= shared(named_view(l@), named_view(r@), 0));
    assert(named_view(others@) =~= counterparts(named_view(l@), named_view(r@), 0));
    while i < l.len()
        invariant
            i <= l@.len(),
            named_view(both@) == shared(named_view(l@), named_view(r@), i as nat),
            named_view(others@) == counterparts(named_view(l@), named_view(r@), i as nat),
        decreases l@.len() - i,
    {
        if let Some(j) = find_field(r, l[i].name()) {
            let ghost before = (both@, others@);
            both.push(l[i].duplicate());
            others.push(r[j].duplicate());
            assert(named_view(both@) =~= named_view(before.0).push(named_view(l@)[i as int]));
            assert(named_view(others@) =~= named_view(before.1).push(named_view(r@)[j as int]));
        }
        i += 1;
    }
    Gathered {
        missing_from_left: missing(r, l),
        both,
        counterparts: others,
        missing_from_right: missing(l, r),
    }
}

/// The associated types of `typ`.
fn all_types(typ: &ArcType) -> (res: Vec<TypeField>)
    ensures
        type_fields_view(res@) == type_fields(typ@),
{
    let mut res: Vec<TypeField> = Vec::new();
    let mut iter = type_field_iter(typ);
    assert(type_fields_view(res@) + iter@ =~= type_fields(typ@));
    loop
        invariant
            iter.wf(),
            type_fields_view(res@) + iter@ == type_fields(typ@),
        decreases iter@.len(),
    {
        let ghost left = iter@;
        match iter.next() {
            Some(field) => {
                let ghost before = res@;
                res.push(field.duplicate());
                assert(type_fields_view(res@) =~= type_fields_view(before).push(left[0]));
                assert(type_fields_view(res@) + iter@ =~= type_fields_view(before) + left);
            },
            None => {
                assert(type_fields_view(res@) + iter@ =~= type_fields_view(res@));
                return res;
            },
        }
    }
}

/// The fields of `typ` and the rest behind them.
fn all_fields(typ: &ArcType) -> (res: (Vec<Field>, ArcType))
    ensures
        fields_view(res.0@) == row_fields(typ@),
        res.1@ == row_rest(typ@),
{
    let mut res: Vec<Field> = Vec::new();
    let mut iter = row_iter(typ);
    assert(fields_view(res@) + iter@ =~= row_fields(typ@));
    loop
        invariant
            iter.wf(),
            iter.rest() == row_rest(typ@),
            fields_view(res@) + iter@ == row_fields(typ@),
        decreases iter@.len(),
    {
        let ghost left = iter@;
        match iter.next() {
            Some(field) => {
                let ghost before = res@;
                res.push(field.duplicate());
                assert(fields_view(res@) =~= fields_view(before).push(left[0]));
                assert(fields_view(res@) + iter@ =~= fields_view(before) + left);
            },
            None => {
                assert(fields_view(res@) + iter@ =~= fields_view(res@));
                return (res, iter.current_type().clone());
            },
        }
    }
}

spec fn news_view(news: Seq<Option<ArcType>>) -> Seq<Option<Ty>> {
    news.map_values(|new: Option<ArcType>| opt_view(new))
}

/// Whether one of `news` is a new type.
fn has_new(news: &Vec<Option<ArcType>>) -> (res: bool)
    ensures
        res == any_new(news_view(news@)),
{
    let mut i: usize = 0;
    while i < news.len()
        invariant
            i <= news@.len(),
            forall|j: int| 0 <= j < i ==> (#[trigger] news_view(news@)[j]) is None,
        decreases news@.len() - i,
    {
        if news[i].is_some() {
            assert(news_view(news@)[i as int] is Some);
            return true;
        }
        assert(news_view(news@)[i as int] is None);
        i += 1;
    }
    false
}

/// The new type, or the old one where there is none.
fn new_type_or(new: &Option<ArcType>, old: &ArcType) -> (res: ArcType)
    ensures
        res@ == new_or(opt_view(*new), old@),
{
    match new {
        Some(typ) => typ.clone(),
        None => old.clone(),
    }
}

/// `olds` with the new types in their places.
fn update_types(olds: &Vec<ArcType>, news: &Vec<Option<ArcType>>) -> (res: Vec<ArcType>)
    requires
        news@.len() <= olds@.len(),
    ensures
        types_view(res@) == updated(types_view(olds@), news_view(news@)),
{
    if !has_new(news) {
        return clone_types(olds);
    }
    let mut res: Vec<ArcType> = Vec::new();
    let mut i: usize = 0;
    while i < news.len()
        invariant
            i <= news@.len() <= olds@.len(),
            res@.len() == i,
            forall|j: int|
                0 <= j < i ==> (#[trigger] res@[j])@ == new_or(opt_view(news@[j]), olds@[j]@),
        decreases news@.len() - i,
    {
        res.push(new_type_or(&news[i], &olds[i]));
        i += 1;
    }
    assert(types_view(res@) =~= updated(types_view(olds@), news_view(news@)));
    res
}

/// `olds` with the new types in their places.
fn update_fields(olds: &Vec<Field>, news: &Vec<Option<ArcType>>) -> (res: Vec<Field>)
    requires
        news@.len() <= olds@.len(),
    ensures
        fields_view(res@) == updated_fields(fields_view(olds@), news_view(news@)),
{
    if !has_new(news) {
        return clone_fields(olds);
    }
    let mut res: Vec<Field> = Vec::new();
    let mut i: usize = 0;
    while i < news.len()
        invariant
            i <= news@.len() <= olds@.len(),
            res@.len() == i,
            forall|j: int|
                0 <= j < i ==> (#[trigger] res@[j]).typ@ == new_or(
                    opt_view(news@[j]),
                    olds@[j].typ@,
                ) && res@[j].name@ == olds@[j].name@,
        decreases news@.len() - i,
    {
        res.push(
            Field { name: olds[i].name.clone(), typ: new_type_or(&news[i], &olds[i].typ) },
        );
        i += 1;
    }
    assert(fields_view(res@) =~= updated_fields(fields_view(olds@), news_view(news@)));
    res
}

/// The types of `fields`.
fn types_of(fields: &Vec<Field>) -> (res: Vec<ArcType>)
    ensures
        types_view(res@) == field_types(fields_view(fields@)),
{
    let mut res: Vec<ArcType> = Vec::new();
    let mut i: usize = 0;
    while i < fields.len()
        invariant
            i <= fields@.len(),
            res@.len() == i,
            forall|j: int| 0 <= j < i ==> (#[trigger] res@[j])@ == fields@[j].typ@,
        decreases fields@.len() - i,
    {
        res.push(fields[i].typ.clone());
        i += 1;
    }
    assert(types_view(res@) =~= field_types(fields_view(fields@)));
    res
}

/// The names of `fields`.
fn names_of(fields: &Vec<Field>) -> (res: Vec<Symbol>)
    ensures
        symbols_view(res@) == field_names(fields_view(fields@)),
{
    let mut res: Vec<Symbol> = Vec::new();
    let mut i: usize = 0;
    while i < fields.len()
        invariant
            i <= fields@.len(),
            res@.len() == i,
            forall|j: int| 0 <= j < i ==> (#[trigger] res@[j])@ == fields@[j].name@,
        decreases fields@.len() - i,
    {
        res.push(fields[i].name.clone());
        i += 1;
    }
    assert(symbols_view(res@) =~= field_names(fields_view(fields@)));
    res
}

/// `types[from..to]`
fn part_of(types: &Vec<ArcType>, from: usize, to: usize) -> (res: Vec<ArcType>)
    requires
        from <= to <= types@.len(),
    ensures
        types_view(res@) == types_view(types@).subrange(from as int, to as int),
{
    let mut res: Vec<ArcType> = Vec::new();
    let mut i: usize = from;
    while i < to
        invariant
            from <= i <= to <= types@.len(),
            res@.len() == i - from,
            forall|j: int| 0 <= j < i - from ==> (#[trigger] res@[j])@ == types@[j + from]@,
        decreases to - i,
    {
        res.push(types[i].clone());
        i += 1;
    }
    assert(types_view(res@) =~= types_view(types@).subrange(from as int, to as int));
    res
}

/// The first part of a row.
struct RowNode {
    types: Vec<TypeField>,
    fields: Vec<Field>,
    rest: ArcType,
}

impl RowNode {
    spec fn so_far(&self, s: Unified) -> RowSoFar {
        RowSoFar {
            s,
            types: type_fields_view(self.types@),
            fields: fields_view(self.fields@),
            rest: self.rest@,
        }
    }

    spec fn part(&self) -> RowPart {
        RowPart {
            types: type_fields_view(self.types@),
            fields: fields_view(self.fields@),
            rest: self.rest@,
        }
    }
}

/// The first part of the row `typ`, if it is one.
fn row_node(typ: &ArcType) -> (res: Option<RowNode>)
    ensures
        match res {
            Some(node) => is_row(typ@) && node.part() == row_part(typ@),
            None => !is_row(typ@),
        },
{
    let types: Vec<TypeField> = Vec::new();
    let fields: Vec<Field> = Vec::new();
    assert(type_fields_view(types@) =~= Seq::<FieldTy>::empty());
    assert(fields_view(fields@) =~= Seq::<FieldTy>::empty());
    match typ.as_type() {
        Type::ExtendRow { fields, rest } => {
            Some(RowNode { types, fields: clone_fields(fields), rest: rest.clone() })
        },
        Type::ExtendTypeRow { types, rest } => match rest.as_type() {
            Type::ExtendRow { fields, rest } => Some(
                RowNode {
                    types: clone_type_fields(types),
                    fields: clone_fields(fields),
                    rest: rest.clone(),
                },
            ),
            _ => Some(RowNode { types: clone_type_fields(types), fields, rest: rest.clone() }),
        },
        _ => None,
    }
}

/// Whether the fields have the same names, one by one.
fn have_same_names(l: &Vec<Field>, r: &Vec<Field>) -> (res: bool)
    ensures
        res == same_names(fields_view(l@), fields_view(r@)),
{
    if l.len() != r.len() {
        return false;
    }
    let mut i: usize = 0;
    while i < l.len()
        invariant
            i <= l@.len() == r@.len(),
            forall|j: int|
                0 <= j < i ==> (#[trigger] fields_view(l@)[j]).name == fields_view(r@)[j].name,
        decreases l@.len() - i,
    {
        if l[i].name != r[i].name {
            assert(fields_view(l@)[i as int].name != fields_view(r@)[i as int].name);
            return false;
        }
        i += 1;
    }
    true
}

/// Whether the associated types are the same.
fn have_same_types(l: &Vec<TypeField>, r: &Vec<TypeField>) -> (res: bool)
    ensures
        res == same_fields(type_fields_view(l@), type_fields_view(r@)),
{
    if l.len() != r.len() {
        return false;
    }
    let mut i: usize = 0;
    while i < l.len()
        invariant
            i <= l@.len() == r@.len(),
            forall|j: int|
                0 <= j < i ==> (#[trigger] type_fields_view(l@)[j]).name == type_fields_view(
                    r@,
                )[j].name && same_type(type_fields_view(l@)[j].typ, type_fields_view(r@)[j].typ),
        decreases l@.len() - i,
    {
        if !l[i].same(&r[i]) {
            let ghost (a, b) = (type_fields_view(l@)[i as int], type_fields_view(r@)[i as int]);
            assert(!(a.name == b.name && same_type(a.typ, b.typ)));
            return false;
        }
        i += 1;
    }
    true
}

/// Whether all of `l` are among `r`.
fn contains_types(r: &Vec<TypeField>, l: &Vec<TypeField>) -> (res: bool)
    ensures
        res == has_all(type_fields_view(r@), type_fields_view(l@)),
{
    let mut i: usize = 0;
    while i < l.len()
        invariant
            i <= l@.len(),
            forall|j: int|
                0 <= j < i ==> has_field(
                    type_fields_view(r@),
                    #[trigger] type_fields_view(l@)[j],
                ),
        decreases l@.len() - i,
    {
        let ghost field = type_fields_view(l@)[i as int];
        let mut found = false;
        let mut j: usize = 0;
        while j < r.len()
            invariant
                i < l@.len(),
                j <= r@.len(),
                field == type_fields_view(l@)[i as int],
                found ==> has_field(type_fields_view(r@), field),
                !found ==> forall|k: int|
                    0 <= k < j ==> !((#[trigger] type_fields_view(r@)[k]).name == field.name
                        && same_type(type_fields_view(r@)[k].typ, field.typ)),
            decreases r@.len() - j,
        {
            if r[j].same(&l[i]) {
                assert(type_fields_view(r@)[j as int].name == field.name);
                found = true;
            }
            j += 1;
        }
        if !found {
            return false;
        }
        i += 1;
    }
    true
}

proof fn matched_all_before(
    f: nat,
    around: Surroundings,
    s: Unified,
    ls: Seq<Ty>,
    rs: Seq<Ty>,
    m: nat,
    n: nat,
)
    requires
        m <= n <= ls.len() == rs.len(),
        matched_all(f, around, s, ls, rs, n) is Some,
    ensures
        matched_all(f, around, s, ls, rs, m) is Some,
    decreases n,
{
    if m < n {
        matched_all_before(f, around, s, ls, rs, m, (n - 1) as nat);
    }
}

proof fn matched_in_order_before(
    f: nat,
    around: Surroundings,
    s: Unified,
    ls: Seq<FieldTy>,
    rs: Seq<FieldTy>,
    m: nat,
    n: nat,
)
    requires
        m <= n <= ls.len(),
        n <= rs.len(),
        matched_in_order(f, around, s, ls, rs, n) is Some,
    ensures
        matched_in_order(f, around, s, ls, rs, m) is Some,
    decreases n,
{
    if m < n {
        matched_in_order_before(f, around, s, ls, rs, m, (n - 1) as nat);
    }
}

/// What came of an attempt.
spec fn attempt_view(res: Result<Option<ArcType>, Error>) -> Attempt {
    match res {
        Ok(new) => Attempt::Matched(opt_view(new)),
        Err(error) => Attempt::Failed(error@),
    }
}

impl<'a, E: TypeEnv> State<'a, E> {
    /// A state in which nothing was unified yet. The aliases come from `env` and the variables from
    /// `subs`.
    pub fn new(env: &'a E, subs: Substitution) -> (res: State<'a, E>)
        ensures
            res.infos() == env.infos(),
            res@ == (Unified {
                subst: subs@,
                levels: subs.levels(),
                faults: Seq::empty(),
                reduced: Seq::empty(),
                context: None,
            }),
    {
        let res = State {
            env,
            reduced_aliases: AliasRemover::new(),
            subs,
            record_context: None,
            errors: Vec::new(),
        };
        assert(res@.faults =~= Seq::<Fault>::empty());
        res
    }

    /// The aliases that are known.
    pub closed spec fn infos(&self) -> Map<Seq<char>, AliasTy> {
        self.env.infos()
    }

    /// What the variables are bound to.
    pub fn substitution(&self) -> (res: &Substitution)
        ensures
            res@ == self@.subst,
            res.levels() == self@.levels,
    {
        &self.subs
    }

    /// Gives the substitution back.
    pub fn into_substitution(self) -> (res: Substitution)
        ensures
            res@ == self@.subst,
            res.levels() == self@.levels,
    {
        self.subs
    }

    fn report_error(&mut self, error: Error)
        ensures
            final(self)@ == old(self)@.fail(error@),
            final(self).infos() == old(self).infos(),
    {
        self.errors.push(error);
        assert(self@.faults =~= old(self)@.faults.push(error@));
    }

    fn new_var(&mut self) -> (res: ArcType)
        requires
            fresh(old(self)@) is Some,
        ensures
            fresh(old(self)@) == Some((final(self)@, res@)),
            final(self).infos() == old(self).infos(),
    {
        self.subs.new_var()
    }

    /// Binds `var` to `typ` if it does not occur in it.
    fn union(
        &mut self,
        var: &TypeVariable,
        typ: &ArcType,
        new: Option<ArcType>,
        Ghost(f): Ghost<nat>,
    ) -> (res: Result<Option<ArcType>, Error>)
        requires
            united(f, old(self)@, *var, typ@, opt_view(new)) is Some,
        ensures
            united(f, old(self)@, *var, typ@, opt_view(new)) == Some(
                (final(self)@, attempt_view(res)),
            ),
            final(self).infos() == old(self).infos(),
    {
        if self.subs.occurs(var.id, typ, Ghost(f)) {
            Err(Error::Occurs(var.clone(), typ.clone()))
        } else {
            self.subs.lower(var.id, typ, Ghost(f));
            self.subs.bind(var.id, typ.clone());
            Ok(new)
        }
    }

    /// Reports the error of an attempt that failed.
    fn settle(&mut self, result: Result<Option<ArcType>, Error>) -> (res: Option<ArcType>)
        requires
            settled(Some((old(self)@, attempt_view(result)))) is Some,
        ensures
            settled(Some((old(self)@, attempt_view(result)))) == Some((final(self)@, opt_view(res))),
            final(self).infos() == old(self).infos(),
    {
        match result {
            Ok(typ) => typ,
            Err(error) => {
                self.report_error(error);
                Some(self.new_var())
            },
        }
    }

    fn try_match(
        &mut self,
        signature: &Signature,
        l: &ArcType,
        r: &ArcType,
        Ghost(f): Ghost<nat>,
    ) -> (res: Option<ArcType>)
        requires
            matched(f, signature.around(old(self).infos()), old(self)@, l@, r@) is Some,
        ensures
            matched(f, signature.around(old(self).infos()), old(self)@, l@, r@) == Some(
                (final(self)@, opt_view(res)),
            ),
            final(self).infos() == old(self).infos(),
        decreases f, 9nat,
    {
        // Retrieve the 'real' types by resolving
        let l = self.subs.actual(l).clone();
        let r = self.subs.actual(r).clone();
        // `l` and `r` must have the same type, if one is a variable that variable is
        // unified with whatever the other type is
        let result = match (l.as_type(), r.as_type()) {
            (Type::Variable(a), Type::Variable(b)) if a.id == b.id => Ok(None),
            (Type::Generic(param), Type::Variable(var)) => {
                let mut left = l.clone();
                if let Some(variables) = signature.variables {
                    if let Some(bound) = variables.get(&param.id) {
                        if let Type::Variable(outer) = bound.as_type() {
                            // The generic variable is defined outside the current scope. Use the
                            // type variable instantiated from the generic and unify with that
                            if outer.id < signature.level {
                                left = bound.clone();
                            } else if outer.id > var.id {
                                // `var` is outside the scope of the generic variable.
                                self.report_error(
                                    Error::Other(TypeError::UnableToGeneralize(param.id.clone())),
                                );
                                return None;
                            }
                        }
                    }
                }
                self.union(var, &left, None, Ghost(f))
            },
            (_, Type::Variable(var)) => self.union(var, &l, None, Ghost(f)),
            (Type::Variable(var), _) => self.union(var, &r, Some(r.clone()), Ghost(f)),
            _ => {
                // Both sides are concrete types, the only way they can be equal is if
                // the matcher finds their top level to be equal (and their sub-terms
                // unify)
                self.zip_match(signature, &l, &r, Ghost((f - 1) as nat))
            },
        };
        self.settle(result)
    }

    /// Expands `l` in search for a type of the name `r_id`.
    fn find_alias_(&mut self, from: ArcType, r_id: &Symbol, Ghost(f): Ghost<nat>) -> (res: Result<
        Option<ArcType>,
        (),
    >)
        requires
            alias_search(f, old(self).infos(), old(self)@.reduced, from@, r_id@, false) is Some,
        ensures
            alias_search(f, old(self).infos(), old(self)@.reduced, from@, r_id@, false) == Some(
                (final(self)@.reduced, alias_result(res)),
            ),
            final(self)@ == (Unified { reduced: final(self)@.reduced, ..old(self)@ }),
            final(self).infos() == old(self).infos(),
    {
        let mut l = from;
        let mut did_alias = false;
        let ghost first = alias_search(f, self.infos(), self@.reduced, l@, r_id@, false);
        let ghost mut n = f;
        loop
            invariant
                first is Some,
                first == alias_search(
                    f,
                    old(self).infos(),
                    old(self)@.reduced,
                    from@,
                    r_id@,
                    false,
                ),
                first == alias_search(n, self.infos(), self@.reduced, l@, r_id@, did_alias),
                self@ == (Unified { reduced: self@.reduced, ..old(self)@ }),
                self.infos() == old(self).infos(),
            decreases n,
        {
            match l.name() {
                Some(l_id) => {
                    let alias: Option<Symbol> = match l.alias_ident() {
                        Some(id) => Some(id.clone()),
                        None => None,
                    };
                    if let Some(id) = &alias {
                        if self.reduced_aliases.contains(id) {
                            return Err(());
                        }
                    }
                    if l_id == *r_id {
                        // If the aliases matched before going through an alias there is no need to
                        // return a replacement type
                        return Ok(
                            if did_alias {
                                Some(l)
                            } else {
                                None
                            },
                        );
                    }
                    match (remove_alias(self.env, &l), alias) {
                        (Ok(Some(typ)), Some(id)) => {
                            did_alias = true;
                            self.reduced_aliases.push(&id);
                            l = typ;
                            proof {
                                n = (n - 1) as nat;
                            }
                        },
                        _ => {
                            return Ok(None);
                        },
                    }
                },
                None => {
                    return Ok(None);
                },
            }
        }
    }

    /// Attempt to unify two alias types.
    /// To find a possible successful unification we walk through the alias expansions of `l` in an
    /// attempt to find that `l` expands to the alias `r_id`
    fn find_alias(&mut self, l: ArcType, r_id: &Symbol, Ghost(f): Ghost<nat>) -> (res: Result<
        Option<ArcType>,
        (),
    >)
        requires
            alias_found(f, old(self).infos(), old(self)@.reduced, l@, r_id@) is Some,
        ensures
            alias_found(f, old(self).infos(), old(self)@.reduced, l@, r_id@) == Some(
                (final(self)@.reduced, alias_result(res)),
            ),
            final(self)@ == (Unified { reduced: final(self)@.reduced, ..old(self)@ }),
            final(self).infos() == old(self).infos(),
    {
        let reduced_aliases: usize = self.reduced_aliases.len();
        let ghost before = self@.reduced;
        proof {
            alias_search_keeps(f, self.infos(), self@.reduced, l@, r_id@, false);
        }
        let result = self.find_alias_(l, r_id, Ghost(f));
        match result {
            Ok(Some(_)) => {},
            _ => {
                // Remove any alias reductions that were added if no new type is returned
                self.reduced_aliases.reset(reduced_aliases);
                assert(self@.reduced =~= before);
            },
        }
        result
    }

    /// Attempt to find a common alias between two types. Returns either the same types that were
    /// passed in or two types which have the same alias in their spine, and whether one of them was
    /// expanded.
    fn find_common_alias(&mut self, expected: &ArcType, actual: &ArcType, Ghost(f): Ghost<nat>) -> (res: (
        ArcType,
        ArcType,
        bool,
    ))
        requires
            common_alias(f, old(self).infos(), old(self)@.reduced, expected@, actual@) is Some,
        ensures
            common_alias(f, old(self).infos(), old(self)@.reduced, expected@, actual@) == Some(
                CommonAlias {
                    reduced: final(self)@.reduced,
                    l: res.0@,
                    r: res.1@,
                    through: res.2,
                },
            ),
            final(self)@ == (Unified { reduced: final(self)@.reduced, ..old(self)@ }),
            final(self).infos() == old(self).infos(),
    {
        if let Some(r_id) = actual.name() {
            match self.find_alias(expected.clone(), &r_id, Ghost(f)) {
                Ok(None) => {},
                Ok(Some(typ)) => {
                    return (typ, actual.clone(), true);
                },
                Err(()) => {
                    return (expected.clone(), actual.clone(), false);
                },
            }
        }
        if let Some(l_id) = expected.name() {
            match self.find_alias(actual.clone(), &l_id, Ghost(f)) {
                Ok(Some(typ)) => {
                    return (expected.clone(), typ, true);
                },
                _ => {},
            }
        }
        (expected.clone(), actual.clone(), false)
    }

    fn zip_match(
        &mut self,
        signature: &Signature,
        l: &ArcType,
        r: &ArcType,
        Ghost(f): Ghost<nat>,
    ) -> (res: Result<Option<ArcType>, Error>)
        requires
            zipped(f, signature.around(old(self).infos()), old(self)@, l@, r@) is Some,
        ensures
            zipped(f, signature.around(old(self).infos()), old(self)@, l@, r@) == Some(
                (final(self)@, attempt_view(res)),
            ),
            final(self).infos() == old(self).infos(),
        decreases f, 8nat,
    {
        let reduced_aliases: usize = self.reduced_aliases.len();
        let (l, r, through_alias) = self.find_common_alias(l, r, Ghost(f));
        let result = self.do_zip_match(signature, &l, &r, Ghost(f));
        self.reduced_aliases.reset(reduced_aliases);
        match result {
            // If the match was done through an alias the unified type is likely less precise than
            // the types themselves.
            // So just return `None` which means the left one is used as the type if necessary
            Ok(unified_type) => Ok(
                if through_alias {
                    None
                } else {
                    unified_type
                },
            ),
            Err(error) => Err(error),
        }
    }

    fn match_types(
        &mut self,
        signature: &Signature,
        ls: &Vec<ArcType>,
        rs: &Vec<ArcType>,
        Ghost(f): Ghost<nat>,
    ) -> (res: Vec<Option<ArcType>>)
        requires
            ls@.len() == rs@.len(),
            matched_all(
                f,
                signature.around(old(self).infos()),
                old(self)@,
                types_view(ls@),
                types_view(rs@),
                ls@.len(),
            ) is Some,
        ensures
            res@.len() == ls@.len(),
            matched_all(
                f,
                signature.around(old(self).infos()),
                old(self)@,
                types_view(ls@),
                types_view(rs@),
                ls@.len(),
            ) == Some((final(self)@, news_view(res@))),
            final(self).infos() == old(self).infos(),
        decreases f, 10nat, ls@.len(),
    {
        let ghost around = signature.around(self.infos());
        let ghost s = self@;
        let mut res: Vec<Option<ArcType>> = Vec::new();
        let mut i: usize = 0;
        assert(news_view(res@) =~= Seq::<Option<Ty>>::empty());
        while i < ls.len()
            invariant
                i <= ls@.len() == rs@.len(),
                res@.len() == i,
                around == signature.around(self.infos()),
                self.infos() == old(self).infos(),
                matched_all(
                    f,
                    around,
                    s,
                    types_view(ls@),
                    types_view(rs@),
                    ls@.len(),
                ) is Some,
                matched_all(f, around, s, types_view(ls@), types_view(rs@), i as nat) == Some(
                    (self@, news_view(res@)),
                ),
            decreases ls@.len() - i,
        {
            proof {
                matched_all_before(
                    f,
                    around,
                    s,
                    types_view(ls@),
                    types_view(rs@),
                    (i + 1) as nat,
                    ls@.len(),
                );
            }
            let ghost before = res@;
            let new = self.try_match(signature, &ls[i], &rs[i], Ghost(f));
            res.push(new);
            assert(news_view(res@) =~= news_view(before).push(opt_view(new)));
            i += 1;
        }
        res
    }

    fn match_fields_in_order(
        &mut self,
        signature: &Signature,
        ls: &Vec<Field>,
        rs: &Vec<Field>,
        Ghost(f): Ghost<nat>,
    ) -> (res: Vec<Option<ArcType>>)
        requires
            matched_in_order(
                f,
                signature.around(old(self).infos()),
                old(self)@,
                fields_view(ls@),
                fields_view(rs@),
                min(ls@.len(), rs@.len()),
            ) is Some,
        ensures
            res@.len() == min(ls@.len(), rs@.len()),
            matched_in_order(
                f,
                signature.around(old(self).infos()),
                old(self)@,
                fields_view(ls@),
                fields_view(rs@),
                min(ls@.len(), rs@.len()),
            ) == Some((final(self)@, news_view(res@))),
            final(self).infos() == old(self).infos(),
        decreases f, 10nat, ls@.len(),
    {
        let ghost around = signature.around(self.infos());
        let ghost s = self@;
        let ghost n = min(ls@.len(), rs@.len());
        let mut res: Vec<Option<ArcType>> = Vec::new();
        let mut i: usize = 0;
        assert(news_view(res@) =~= Seq::<Option<Ty>>::empty());
        while i < ls.len() && i < rs.len()
            invariant
                i <= ls@.len(),
                i <= rs@.len(),
                n == min(ls@.len(), rs@.len()),
                res@.len() == i,
                around == signature.around(self.infos()),
                self.infos() == old(self).infos(),
                matched_in_order(f, around, s, fields_view(ls@), fields_view(rs@), n) is Some,
                matched_in_order(f, around, s, fields_view(ls@), fields_view(rs@), i as nat)
                    == Some((self@, news_view(res@))),
            decreases ls@.len() - i,
        {
            proof {
                matched_in_order_before(
                    f,
                    around,
                    s,
                    fields_view(ls@),
                    fields_view(rs@),
                    (i + 1) as nat,
                    n,
                );
            }
            let ghost before = res@;
            let new = if ls[i].name != rs[i].name {
                self.report_error(
                    Error::Other(
                        TypeError::FieldMismatch(ls[i].name.clone(), rs[i].name.clone()),
                    ),
                );
                None
            } else {
                self.try_match(signature, &ls[i].typ, &rs[i].typ, Ghost(f))
            };
            res.push(new);
            assert(news_view(res@) =~= news_view(before).push(opt_view(new)));
            i += 1;
        }
        res
    }

    fn zip_applications(
        &mut self,
        signature: &Signature,
        lf: &ArcType,
        ls: &Vec<ArcType>,
        rf: &ArcType,
        rs: &Vec<ArcType>,
        Ghost(f): Ghost<nat>,
    ) -> (res: Result<Option<ArcType>, Error>)
        requires
            zipped_applications(
                f,
                signature.around(old(self).infos()),
                old(self)@,
                lf@,
                types_view(ls@),
                rf@,
                types_view(rs@),
            ) is Some,
        ensures
            zipped_applications(
                f,
                signature.around(old(self).infos()),
                old(self)@,
                lf@,
                types_view(ls@),
                rf@,
                types_view(rs@),
            ) == Some((final(self)@, attempt_view(res))),
            final(self).infos() == old(self).infos(),
        decreases f, 11nat,
    {
        let (l_len, r_len): (usize, usize) = (ls.len(), rs.len());
        assert(types_view(ls@).take(0) =~= Seq::<Ty>::empty());
        assert(types_view(rs@).take(0) =~= Seq::<Ty>::empty());
        assert(types_view(ls@).skip(0) =~= types_view(ls@));
        assert(types_view(rs@).skip(0) =~= types_view(rs@));
        if l_len <= r_len {
            let offset: usize = r_len - l_len;
            let first = Type::app(rf.clone(), part_of(rs, 0, offset));
            let others = part_of(rs, offset, r_len);
            let new_type = self.try_match(signature, lf, &first, Ghost(f));
            let new_args = self.match_types(signature, ls, &others, Ghost(f));
            if new_type.is_some() || has_new(&new_args) {
                Ok(
                    Some(
                        Type::app(new_type_or(&new_type, lf), update_types(ls, &new_args)),
                    ),
                )
            } else {
                Ok(None)
            }
        } else {
            let offset: usize = l_len - r_len;
            let first = Type::app(lf.clone(), part_of(ls, 0, offset));
            let others = part_of(ls, offset, l_len);
            let new_type = self.try_match(signature, &first, rf, Ghost(f));
            let new_args = self.match_types(signature, &others, rs, Ghost(f));
            if has_new(&new_args) {
                Ok(
                    Some(
                        Type::app(
                            new_type_or(&new_type, rf),
                            update_types(&others, &new_args),
                        ),
                    ),
                )
            } else if new_type.is_some() {
                Ok(Some(Type::app(new_type_or(&new_type, rf), clone_types(rs))))
            } else {
                Ok(None)
            }
        }
    }

    fn do_zip_match(
        &mut self,
        signature: &Signature,
        l: &ArcType,
        r: &ArcType,
        Ghost(f): Ghost<nat>,
    ) -> (res: Result<Option<ArcType>, Error>)
        requires
            zipped_parts(f, signature.around(old(self).infos()), old(self)@, l@, r@) is Some,
        ensures
            zipped_parts(f, signature.around(old(self).infos()), old(self)@, l@, r@) == Some(
                (final(self)@, attempt_view(res)),
            ),
            final(self).infos() == old(self).infos(),
        decreases f, 7nat,
    {
        let ghost f = (f - 1) as nat;
        match (l.as_type(), r.as_type()) {
            (Type::App(lf, ls), Type::App(rf, rs)) => {
                self.zip_applications(signature, lf, ls, rf, rs, Ghost(f))
            },
            (Type::Function(lk, la, lr), Type::Function(rk, ra, rr)) if *lk == *rk => {
                let new_arg = self.try_match(signature, la, ra, Ghost(f));
                let new_ret = self.try_match(signature, lr, rr, Ghost(f));
                if new_arg.is_some() || new_ret.is_some() {
                    Ok(
                        Some(
                            ArcType::new(
                                Type::Function(
                                    *lk,
                                    new_type_or(&new_arg, la),
                                    new_type_or(&new_ret, lr),
                                ),
                            ),
                        ),
                    )
                } else {
                    Ok(None)
                }
            },
            (Type::Record(l_row), Type::Record(r_row)) => {
                // Store the current records so that they can be used when displaying field errors
                let previous = match &self.record_context {
                    Some((l, r)) => Some((l.clone(), r.clone())),
                    None => None,
                };
                self.record_context = Some((l.clone(), r.clone()));
                let row = self.try_match(signature, l_row, r_row, Ghost(f));
                self.record_context = previous;
                match row {
                    Some(row) => Ok(Some(ArcType::new(Type::Record(row)))),
                    None => Ok(None),
                }
            },
            (Type::Ident(id), Type::Alias(alias)) if *id == *alias.data().name() => {
                Ok(Some(r.clone()))
            },
            (Type::Alias(alias), Type::Ident(id)) if *id == *alias.data().name() => Ok(None),
            _ => {
                if let (Some(l_node), Some(r_node)) = (row_node(l), row_node(r)) {
                    self.zip_rows(signature, l, r, &l_node, &r_node, Ghost(f))
                } else if l.same(r) {
                    // Successful unification
                    Ok(None)
                } else {
                    self.try_with_alias(signature, l, r, Ghost(f))
                }
            },
        }
    }

    fn zip_rows(
        &mut self,
        signature: &Signature,
        l: &ArcType,
        r: &ArcType,
        l_node: &RowNode,
        r_node: &RowNode,
        Ghost(f): Ghost<nat>,
    ) -> (res: Result<Option<ArcType>, Error>)
        requires
            l_node.part() == row_part(l@),
            r_node.part() == row_part(r@),
            zipped_rows(f, signature.around(old(self).infos()), old(self)@, l@, r@) is Some,
        ensures
            zipped_rows(f, signature.around(old(self).infos()), old(self)@, l@, r@) == Some(
                (final(self)@, attempt_view(res)),
            ),
            final(self).infos() == old(self).infos(),
        decreases f, 12nat,
    {
        let new_args;
        if have_same_names(&l_node.fields, &r_node.fields) && have_same_types(
            &l_node.types,
            &r_node.types,
        ) {
            // When the field names of both rows match exactly we special case
            // unification to maximize sharing
            let l_types = types_of(&l_node.fields);
            let r_types = types_of(&r_node.fields);
            assert(types_view(l_types@).len() == fields_view(l_node.fields@).len());
            assert(types_view(r_types@).len() == fields_view(r_node.fields@).len());
            new_args = self.match_types(signature, &l_types, &r_types, Ghost(f));
        } else if is_empty_row(&l_node.rest) && is_empty_row(&r_node.rest) && l_node.fields.len()
            == r_node.fields.len() {
            if !contains_types(&all_types(r), &all_types(l)) {
                return Err(Error::TypeMismatch(l.clone(), r.clone()));
            }
            // For non polymorphic records we need to care about field order as the compiler assumes
            // the order the fields occur in the type determines how to access them
            new_args = self.match_fields_in_order(
                signature,
                &l_node.fields,
                &r_node.fields,
                Ghost(f),
            );
        } else {
            return self.unify_rows(signature, l, r, Ghost(f));
        }
        let new_rest = self.try_match(signature, &l_node.rest, &r_node.rest, Ghost(f));
        if has_new(&new_args) || new_rest.is_some() {
            Ok(
                Some(
                    Type::extend_full_row(
                        clone_type_fields(&l_node.types),
                        update_fields(&l_node.fields, &new_args),
                        new_type_or(&new_rest, &l_node.rest),
                    ),
                ),
            )
        } else {
            Ok(None)
        }
    }

    /// Adds the fields that the right row lacks.
    fn extend_right(
        &mut self,
        signature: &Signature,
        r: &ArcType,
        rest_of: &ArcType,
        types: &Vec<TypeField>,
        fields: &Vec<Field>,
        row: &mut RowNode,
        Ghost(f): Ghost<nat>,
    )
        requires
            rest_of@ == row_rest(r@),
            extended_right(
                f,
                signature.around(old(self).infos()),
                old(row).so_far(old(self)@),
                r@,
                type_fields_view(types@),
                fields_view(fields@),
            ) is Some,
        ensures
            extended_right(
                f,
                signature.around(old(self).infos()),
                old(row).so_far(old(self)@),
                r@,
                type_fields_view(types@),
                fields_view(fields@),
            ) == Some(final(row).so_far(final(self)@)),
            final(self).infos() == old(self).infos(),
        decreases f, 10nat,
    {
        // No need to do anything of no fields are missing
        if fields.len() > 0 {
            // If we attempt to unify with a non-polymorphic record we intercept the unification to
            // display a better error message
            if is_empty_row(rest_of) {
                let context = match &self.record_context {
                    Some((_, r)) => r.clone(),
                    None => r.clone(),
                };
                self.report_error(
                    Error::Other(TypeError::MissingFields(context, names_of(fields))),
                );
            } else {
                let rest = self.new_var();
                let missing_row = Type::extend_full_row(
                    clone_type_fields(types),
                    clone_fields(fields),
                    rest.clone(),
                );
                self.try_match(signature, &missing_row, rest_of, Ghost(f));
                append(&mut row.types, types);
                append(&mut row.fields, fields);
                row.rest = rest;
                proof {
                    same_view_types(types@);
                    same_view_fields(fields@);
                    same_view_types(old(row).types@);
                    same_view_fields(old(row).fields@);
                    same_view_types(row.types@);
                    same_view_fields(row.fields@);
                }
            }
        }
    }

    /// Adds the fields that the left row lacks.
    fn extend_left(
        &mut self,
        signature: &Signature,
        l: &ArcType,
        rest_of: &ArcType,
        types: &Vec<TypeField>,
        fields: &Vec<Field>,
        row: &mut RowNode,
        Ghost(f): Ghost<nat>,
    )
        requires
            rest_of@ == row_rest(l@),
            extended_left(
                f,
                signature.around(old(self).infos()),
                old(row).so_far(old(self)@),
                l@,
                type_fields_view(types@),
                fields_view(fields@),
            ) is Some,
        ensures
            extended_left(
                f,
                signature.around(old(self).infos()),
                old(row).so_far(old(self)@),
                l@,
                type_fields_view(types@),
                fields_view(fields@),
            ) == Some(final(row).so_far(final(self)@)),
            final(self).infos() == old(self).infos(),
        decreases f, 10nat,
    {
        // No need to do anything of no fields are missing
        if fields.len() > 0 {
            // If we attempt to unify with a non-polymorphic record we intercept the unification to
            // display a better error message
            if is_empty_row(rest_of) {
                let context = match &self.record_context {
                    Some((l, _)) => l.clone(),
                    None => l.clone(),
                };
                self.report_error(
                    Error::Other(TypeError::MissingFields(context, names_of(fields))),
                );
            } else {
                let rest = self.new_var();
                let missing_row = Type::extend_full_row(
                    clone_type_fields(types),
                    clone_fields(fields),
                    rest.clone(),
                );
                self.try_match(signature, rest_of, &missing_row, Ghost(f));
                append(&mut row.types, types);
                append(&mut row.fields, fields);
                row.rest = rest;
                proof {
                    same_view_types(types@);
                    same_view_fields(fields@);
                    same_view_types(old(row).types@);
                    same_view_fields(old(row).fields@);
                    same_view_types(row.types@);
                    same_view_fields(row.fields@);
                }
            }
        }
    }

    /// Do unification between two rows. Each row is either `Type::ExtendRow` or `Type::EmptyRow`.
    /// Two rows will unify successfully if all fields they have in common unifies and if either
    /// record have additional fields not found in the other record, the other record can be extended.
    /// A record can be extended if the `rest` part of `Type::ExtendRow` is a type variable in which
    /// case that variable is unified with the missing fields.
    #[verifier::rlimit(30)]
    fn unify_rows(
        &mut self,
        signature: &Signature,
        l: &ArcType,
        r: &ArcType,
        Ghost(f): Ghost<nat>,
    ) -> (res: Result<Option<ArcType>, Error>)
        requires
            united_rows(f, signature.around(old(self).infos()), old(self)@, l@, r@) is Some,
        ensures
            united_rows(f, signature.around(old(self).infos()), old(self)@, l@, r@) == Some(
                (final(self)@, attempt_view(res)),
            ),
            final(self).infos() == old(self).infos(),
        decreases f, 11nat,
    {
        let (l_types, r_types) = (all_types(l), all_types(r));
        let (l_fields, l_rest) = all_fields(l);
        let (r_fields, r_rest) = all_fields(r);
        let gathered_types = gather_fields(&l_types, &r_types);
        let gathered = gather_fields(&l_fields, &r_fields);
        proof {
            same_view_types(l_types@);
            same_view_types(r_types@);
            same_view_types(gathered_types.both@);
            same_view_types(gathered_types.counterparts@);
            same_view_types(gathered_types.missing_from_left@);
            same_view_types(gathered_types.missing_from_right@);
            same_view_fields(l_fields@);
            same_view_fields(r_fields@);
            same_view_fields(gathered.both@);
            same_view_fields(gathered.counterparts@);
            same_view_fields(gathered.missing_from_left@);
            same_view_fields(gathered.missing_from_right@);
            shared_one_by_one(fields_view(l_fields@), fields_view(r_fields@), l_fields@.len());
        }
        if !have_same_types(&gathered_types.both, &gathered_types.counterparts) {
            return Err(Error::TypeMismatch(l.clone(), r.clone()));
        }
        // Unify the fields that exists in both records
        let both_types = types_of(&gathered.both);
        let other_types = types_of(&gathered.counterparts);
        assert(types_view(both_types@).len() == fields_view(gathered.both@).len());
        assert(types_view(other_types@).len() == fields_view(gathered.counterparts@).len());
        let new_both = self.match_types(signature, &both_types, &other_types, Ghost(f));

        // Pack all fields from both records into a single row
        let types = gathered_types.both;
        let fields = update_fields(&gathered.both, &new_both);

        // Unify the fields missing from the left and right record with the variable (that hopefully)
        // exists as the 'extension' in the other record
        // Example:
        // `{ x : Int | $0 } <=> `{ y : String | $1 }`
        // `Row (x : Int | Fresh var) <=> $1`
        // `Row (y : String | Fresh var 2) <=> $0`

        // This default `rest` value will only be used on errors, or if both fields has the same
        // fields
        let rest = r_rest.clone();
        let mut row = RowNode { types, fields, rest };
        self.extend_right(
            signature,
            r,
            &r_rest,
            &gathered_types.missing_from_right,
            &gathered.missing_from_right,
            &mut row,
            Ghost(f),
        );
        self.extend_left(
            signature,
            l,
            &l_rest,
            &gathered_types.missing_from_left,
            &gathered.missing_from_left,
            &mut row,
            Ghost(f),
        );
        let RowNode { types, fields, rest } = row;
        Ok(Some(Type::extend_full_row(types, fields, rest)))
    }

    /// Removes the aliases of `typ`, if it has any.
    fn remove_aliases_checked(&mut self, typ: &ArcType, Ghost(f): Ghost<nat>) -> (res: Result<
        Option<ArcType>,
        TypeError,
    >)
        requires
            without_aliases(f, old(self).infos(), old(self)@.reduced, typ@, false) is Some,
        ensures
            match without_aliases(f, old(self).infos(), old(self)@.reduced, typ@, false) {
                Some((reduced, Ok(new))) => final(self)@.reduced == reduced && (res matches Ok(res)
                    && opt_view(res) == new),
                Some((reduced, Err(name))) => final(self)@.reduced == reduced && (res matches Err(
                    error,
                ) && error@ == Fault::SelfRecursive(name)),
                None => false,
            },
            final(self)@ == (Unified { reduced: final(self)@.reduced, ..old(self)@ }),
            final(self).infos() == old(self).infos(),
    {
        let mut current = typ.clone();
        let mut changed = false;
        let ghost first = without_aliases(f, self.infos(), self@.reduced, typ@, false);
        let ghost mut n = f;
        loop
            invariant
                first is Some,
                first == without_aliases(
                    f,
                    old(self).infos(),
                    old(self)@.reduced,
                    typ@,
                    false,
                ),
                first == without_aliases(n, self.infos(), self@.reduced, current@, changed),
                self@ == (Unified { reduced: self@.reduced, ..old(self)@ }),
                self.infos() == old(self).infos(),
            decreases n,
        {
            match self.reduced_aliases.remove_alias(self.env, &current) {
                Ok(Some(next)) => {
                    current = next;
                    changed = true;
                    proof {
                        n = (n - 1) as nat;
                    }
                },
                Ok(None) => {
                    return Ok(
                        if changed {
                            Some(current)
                        } else {
                            None
                        },
                    );
                },
                Err(error) => {
                    return Err(TypeError::from_alias(error));
                },
            }
        }
    }

    /// As a last ditch effort attempt to unify the types again by expanding the aliases (if the
    /// types are alias types).
    fn try_with_alias(
        &mut self,
        signature: &Signature,
        expected: &ArcType,
        actual: &ArcType,
        Ghost(f): Ghost<nat>,
    ) -> (res: Result<Option<ArcType>, Error>)
        requires
            with_alias(
                f,
                signature.around(old(self).infos()),
                old(self)@,
                expected@,
                actual@,
            ) is Some,
        ensures
            with_alias(f, signature.around(old(self).infos()), old(self)@, expected@, actual@)
                == Some((final(self)@, attempt_view(res))),
            final(self).infos() == old(self).infos(),
        decreases f, 10nat,
    {
        let l = match self.remove_aliases_checked(expected, Ghost(f)) {
            Ok(l) => l,
            Err(error) => {
                return Err(Error::Other(error));
            },
        };
        let r = match self.remove_aliases_checked(actual, Ghost(f)) {
            Ok(r) => r,
            Err(error) => {
                return Err(Error::Other(error));
            },
        };
        if l.is_none() && r.is_none() {
            return Err(Error::TypeMismatch(expected.clone(), actual.clone()));
        }
        self.try_match(
            signature,
            &new_type_or(&l, expected),
            &new_type_or(&r, actual),
            Ghost(f),
        );
        Ok(None)
    }
}

spec fn alias_result(res: Result<Option<ArcType>, ()>) -> Result<Option<Ty>, ()> {
    match res {
        Ok(typ) => Ok(opt_view(typ)),
        Err(()) => Err(()),
    }
}

/// A search only adds to the aliases that are being expanded.
proof fn alias_search_keeps(
    f: nat,
    infos: Map<Seq<char>, AliasTy>,
    reduced: Seq<Seq<char>>,
    t: Ty,
    goal: Seq<char>,
    did: bool,
)
    ensures
        alias_search(f, infos, reduced, t, goal, did) matches Some((after, _)) ==> reduced.len()
            <= after.len() && after.take(reduced.len() as int) == reduced,
    decreases f,
{
    assert(reduced.take(reduced.len() as int) =~= reduced);
    if let (Some(next), Some(alias)) = (expanded(infos, t), alias_name(t)) {
        if f > 0 {
            let more = reduced.push(alias);
            alias_search_keeps((f - 1) as nat, infos, more, next, goal, true);
            if let Some((after, _)) = alias_search((f - 1) as nat, infos, more, next, goal, true) {
                assert(more.take(reduced.len() as int) =~= reduced);
                assert(after.take(more.len() as int).take(reduced.len() as int)
                    =~= after.take(reduced.len() as int));
            }
        }
    }
}

proof fn same_view_types(types: Seq<TypeField>)
    ensures
        named_view(types) == type_fields_view(types),
{
    assert(named_view(types) =~= type_fields_view(types));
}

proof fn same_view_fields(fields: Seq<Field>)
    ensures
        named_view(fields) == fields_view(fields),
{
    assert(named_view(fields) =~= fields_view(fields));
}

/// What two rows share has a counterpart each.
proof fn shared_one_by_one(l: Seq<FieldTy>, r: Seq<FieldTy>, n: nat)
    requires
        n <= l.len(),
    ensures
        shared(l, r, n).len() == counterparts(l, r, n).len(),
    decreases n,
{
    if n > 0 {
        shared_one_by_one(l, r, (n - 1) as nat);
    }
}

fn append<T: Named>(fields: &mut Vec<T>, more: &Vec<T>)
    ensures
        named_view(final(fields)@) == named_view(old(fields)@) + named_view(more@),
{
    let mut i: usize = 0;
    assert(named_view(more@).take(0) =~= Seq::<FieldTy>::empty());
    assert(named_view(fields@) =~= named_view(old(fields)@) + named_view(more@).take(0));
    while i < more.len()
        invariant
            i <= more@.len(),
            named_view(fields@) == named_view(old(fields)@) + named_view(more@).take(i as int),
        decreases more@.len() - i,
    {
        let ghost before = fields@;
        fields.push(more[i].duplicate());
        assert(named_view(fields@) =~= named_view(before).push(named_view(more@)[i as int]));
        assert(named_view(more@).take(i + 1) =~= named_view(more@).take(i as int).push(
            named_view(more@)[i as int],
        ));
        i += 1;
    }
    assert(named_view(more@).take(i as int) =~= named_view(more@));
}

fn is_empty_row(typ: &ArcType) -> (res: bool)
    ensures
        res == (typ@ is EmptyRow),
{
    match typ.as_type() {
        Type::EmptyRow => true,
        _ => false,
    }
}

proof fn united_settles(f: nat, s: Unified, var: TypeVariable, t: Ty, new: Option<Ty>)
    requires
        united(f, s, var, t, new) is Some,
    ensures
        united((f + 1) as nat, s, var, t, new) == united(f, s, var, t, new),
{
    occurs_settles(f, s.subst, var.id, t);
    lowered_settles(f, s.subst, s.levels, var.id, t);
}

proof fn alias_search_settles(
    f: nat,
    infos: Map<Seq<char>, AliasTy>,
    reduced: Seq<Seq<char>>,
    t: Ty,
    goal: Seq<char>,
    did: bool,
)
    requires
        alias_search(f, infos, reduced, t, goal, did) is Some,
    ensures
        alias_search((f + 1) as nat, infos, reduced, t, goal, did) == alias_search(
            f,
            infos,
            reduced,
            t,
            goal,
            did,
        ),
    decreases f,
{
    if let (Some(next), Some(alias)) = (expanded(infos, t), alias_name(t)) {
        if f > 0 && !reduced.contains(alias) && name_of(t) != Some(goal) {
            alias_search_settles((f - 1) as nat, infos, reduced.push(alias), next, goal, true);
        }
    }
}

proof fn without_aliases_settles(
    f: nat,
    infos: Map<Seq<char>, AliasTy>,
    reduced: Seq<Seq<char>>,
    t: Ty,
    changed: bool,
)
    requires
        without_aliases(f, infos, reduced, t, changed) is Some,
    ensures
        without_aliases((f + 1) as nat, infos, reduced, t, changed) == without_aliases(
            f,
            infos,
            reduced,
            t,
            changed,
        ),
    decreases f,
{
    if let Removed::Expanded(name, next) = removed(infos, reduced, t) {
        without_aliases_settles((f - 1) as nat, infos, reduced.push(name), next, true);
    }
}

proof fn common_alias_settles(
    f: nat,
    infos: Map<Seq<char>, AliasTy>,
    reduced: Seq<Seq<char>>,
    l: Ty,
    r: Ty,
)
    requires
        common_alias(f, infos, reduced, l, r) is Some,
    ensures
        common_alias((f + 1) as nat, infos, reduced, l, r) == common_alias(
            f,
            infos,
            reduced,
            l,
            r,
        ),
{
    if let Some(goal) = name_of(r) {
        alias_search_settles(f, infos, reduced, l, goal, false);
    }
    if let Some(goal) = name_of(l) {
        if alias_search(f, infos, reduced, r, goal, false) is Some {
            alias_search_settles(f, infos, reduced, r, goal, false);
        }
    }
}

/// More steps give the same answer.
pub proof fn matched_settles(f: nat, around: Surroundings, s: Unified, l: Ty, r: Ty)
    requires
        matched(f, around, s, l, r) is Some,
    ensures
        matched((f + 1) as nat, around, s, l, r) == matched(f, around, s, l, r),
    decreases f, 9nat,
{
    if let (Some(l), Some(r)) = (actual(s.subst, l), actual(s.subst, r)) {
        match (l, r) {
            (Ty::Variable(a), Ty::Variable(b)) if a.id == b.id => {},
            (Ty::Generic(param), Ty::Variable(var)) => {
                if let Parameter::Is(left) = parameter(around, param, var) {
                    united_settles(f, s, var, left, None);
                }
            },
            (_, Ty::Variable(var)) => {
                united_settles(f, s, var, l, None);
            },
            (Ty::Variable(var), _) => {
                united_settles(f, s, var, r, Some(r));
            },
            _ => {
                zipped_settles((f - 1) as nat, around, s, l, r);
            },
        }
    }
}

proof fn zipped_settles(f: nat, around: Surroundings, s: Unified, l: Ty, r: Ty)
    requires
        zipped(f, around, s, l, r) is Some,
    ensures
        zipped((f + 1) as nat, around, s, l, r) == zipped(f, around, s, l, r),
    decreases f, 8nat,
{
    common_alias_settles(f, around.infos, s.reduced, l, r);
    if let Some(common) = common_alias(f, around.infos, s.reduced, l, r) {
        zipped_parts_settles(
            f,
            around,
            Unified { reduced: common.reduced, ..s },
            common.l,
            common.r,
        );
    }
}

proof fn zipped_parts_settles(f: nat, around: Surroundings, s: Unified, l: Ty, r: Ty)
    requires
        zipped_parts(f, around, s, l, r) is Some,
    ensures
        zipped_parts((f + 1) as nat, around, s, l, r) == zipped_parts(f, around, s, l, r),
    decreases f, 7nat,
{
    let g = (f - 1) as nat;
    match (l, r) {
        (Ty::App(lf, ls), Ty::App(rf, rs)) => {
            zipped_applications_settles(g, around, s, *lf, ls, *rf, rs);
        },
        (Ty::Function(lk, la, lr), Ty::Function(rk, ra, rr)) if lk == rk => {
            matched_settles(g, around, s, *la, *ra);
            if let Some((s, _)) = matched(g, around, s, *la, *ra) {
                matched_settles(g, around, s, *lr, *rr);
            }
        },
        (Ty::Record(lrow), Ty::Record(rrow)) => {
            matched_settles(g, around, Unified { context: Some((l, r)), ..s }, *lrow, *rrow);
        },
        (Ty::Ident(id), Ty::Alias(alias)) if id == alias.data().name => {},
        (Ty::Alias(alias), Ty::Ident(id)) if id == alias.data().name => {},
        _ => {
            if is_row(l) && is_row(r) {
                zipped_rows_settles(g, around, s, l, r);
            } else if !same_type(l, r) {
                with_alias_settles(g, around, s, l, r);
            }
        },
    }
}

proof fn zipped_applications_settles(
    f: nat,
    around: Surroundings,
    s: Unified,
    lf: Ty,
    ls: Seq<Ty>,
    rf: Ty,
    rs: Seq<Ty>,
)
    requires
        zipped_applications(f, around, s, lf, ls, rf, rs) is Some,
    ensures
        zipped_applications((f + 1) as nat, around, s, lf, ls, rf, rs) == zipped_applications(
            f,
            around,
            s,
            lf,
            ls,
            rf,
            rs,
        ),
    decreases f, 11nat,
{
    let (lf2, ls2, rf2, rs2) = aligned(lf, ls, rf, rs);
    matched_settles(f, around, s, lf2, rf2);
    if let Some((s, _)) = matched(f, around, s, lf2, rf2) {
        matched_all_settles(f, around, s, ls2, rs2, ls2.len());
    }
}

proof fn matched_all_settles(
    f: nat,
    around: Surroundings,
    s: Unified,
    ls: Seq<Ty>,
    rs: Seq<Ty>,
    n: nat,
)
    requires
        matched_all(f, around, s, ls, rs, n) is Some,
    ensures
        matched_all((f + 1) as nat, around, s, ls, rs, n) == matched_all(
            f,
            around,
            s,
            ls,
            rs,
            n,
        ),
    decreases f, 10nat, n,
{
    if 0 < n <= ls.len() && n <= rs.len() {
        matched_all_settles(f, around, s, ls, rs, (n - 1) as nat);
        if let Some((s, _)) = matched_all(f, around, s, ls, rs, (n - 1) as nat) {
            matched_settles(f, around, s, ls[n - 1], rs[n - 1]);
        }
    }
}

proof fn matched_in_order_settles(
    f: nat,
    around: Surroundings,
    s: Unified,
    ls: Seq<FieldTy>,
    rs: Seq<FieldTy>,
    n: nat,
)
    requires
        matched_in_order(f, around, s, ls, rs, n) is Some,
    ensures
        matched_in_order((f + 1) as nat, around, s, ls, rs, n) == matched_in_order(
            f,
            around,
            s,
            ls,
            rs,
            n,
        ),
    decreases f, 10nat, n,
{
    if 0 < n <= ls.len() && n <= rs.len() {
        matched_in_order_settles(f, around, s, ls, rs, (n - 1) as nat);
        if let Some((s, _)) = matched_in_order(f, around, s, ls, rs, (n - 1) as nat) {
            if ls[n - 1].name == rs[n - 1].name {
                matched_settles(f, around, s, ls[n - 1].typ, rs[n - 1].typ);
            }
        }
    }
}

proof fn zipped_rows_settles(f: nat, around: Surroundings, s: Unified, l: Ty, r: Ty)
    requires
        zipped_rows(f, around, s, l, r) is Some,
    ensures
        zipped_rows((f + 1) as nat, around, s, l, r) == zipped_rows(f, around, s, l, r),
    decreases f, 12nat,
{
    let (lp, rp) = (row_part(l), row_part(r));
    let (lt, rt) = (field_types(lp.fields), field_types(rp.fields));
    if same_names(lp.fields, rp.fields) && same_fields(lp.types, rp.types) {
        matched_all_settles(f, around, s, lt, rt, lp.fields.len());
        if let Some((s, _)) = matched_all(f, around, s, lt, rt, lp.fields.len()) {
            matched_settles(f, around, s, lp.rest, rp.rest);
        }
    } else if lp.rest is EmptyRow && rp.rest is EmptyRow && lp.fields.len() == rp.fields.len() {
        if has_all(type_fields(r), type_fields(l)) {
            let n = lp.fields.len();
            matched_in_order_settles(f, around, s, lp.fields, rp.fields, n);
            if let Some((s, _)) = matched_in_order(f, around, s, lp.fields, rp.fields, n) {
                matched_settles(f, around, s, lp.rest, rp.rest);
            }
        }
    } else {
        united_rows_settles(f, around, s, l, r);
    }
}

proof fn extended_right_settles(
    f: nat,
    around: Surroundings,
    row: RowSoFar,
    r: Ty,
    types: Seq<FieldTy>,
    fields: Seq<FieldTy>,
)
    requires
        extended_right(f, around, row, r, types, fields) is Some,
    ensures
        extended_right((f + 1) as nat, around, row, r, types, fields) == extended_right(
            f,
            around,
            row,
            r,
            types,
            fields,
        ),
    decreases f, 10nat,
{
    if fields.len() > 0 && !(row_rest(r) is EmptyRow) {
        if let Some((s, var)) = fresh(row.s) {
            matched_settles(f, around, s, full_row(types, fields, var), row_rest(r));
        }
    }
}

proof fn extended_left_settles(
    f: nat,
    around: Surroundings,
    row: RowSoFar,
    l: Ty,
    types: Seq<FieldTy>,
    fields: Seq<FieldTy>,
)
    requires
        extended_left(f, around, row, l, types, fields) is Some,
    ensures
        extended_left((f + 1) as nat, around, row, l, types, fields) == extended_left(
            f,
            around,
            row,
            l,
            types,
            fields,
        ),
    decreases f, 10nat,
{
    if fields.len() > 0 && !(row_rest(l) is EmptyRow) {
        if let Some((s, var)) = fresh(row.s) {
            matched_settles(f, around, s, row_rest(l), full_row(types, fields, var));
        }
    }
}

proof fn united_rows_settles(f: nat, around: Surroundings, s: Unified, l: Ty, r: Ty)
    requires
        united_rows(f, around, s, l, r) is Some,
    ensures
        united_rows((f + 1) as nat, around, s, l, r) == united_rows(f, around, s, l, r),
    decreases f, 11nat,
{
    let (lt, rt) = (type_fields(l), type_fields(r));
    let (lf, rf) = (row_fields(l), row_fields(r));
    let (types, rtypes) = (shared(lt, rt, lt.len()), counterparts(lt, rt, lt.len()));
    if same_fields(types, rtypes) {
        let both = shared(lf, rf, lf.len());
        let (a, b) = (field_types(both), field_types(counterparts(lf, rf, lf.len())));
        matched_all_settles(f, around, s, a, b, both.len());
        if let Some((s, news)) = matched_all(f, around, s, a, b, both.len()) {
            let row = RowSoFar { s, types, fields: updated_fields(both, news), rest: row_rest(r) };
            let (mt, mf) = (lacking(lt, rt, lt.len()), lacking(lf, rf, lf.len()));
            extended_right_settles(f, around, row, r, mt, mf);
            if let Some(row) = extended_right(f, around, row, r, mt, mf) {
                extended_left_settles(
                    f,
                    around,
                    row,
                    l,
                    lacking(rt, lt, rt.len()),
                    lacking(rf, lf, rf.len()),
                );
            }
        }
    }
}

proof fn with_alias_settles(f: nat, around: Surroundings, s: Unified, l: Ty, r: Ty)
    requires
        with_alias(f, around, s, l, r) is Some,
    ensures
        with_alias((f + 1) as nat, around, s, l, r) == with_alias(f, around, s, l, r),
    decreases f, 10nat,
{
    without_aliases_settles(f, around.infos, s.reduced, l, false);
    if let Some((reduced, Ok(new_l))) = without_aliases(f, around.infos, s.reduced, l, false) {
        without_aliases_settles(f, around.infos, reduced, r, false);
        if let Some((reduced, Ok(new_r))) = without_aliases(f, around.infos, reduced, r, false) {
            if new_l is Some || new_r is Some {
                matched_settles(
                    f,
                    around,
                    Unified { reduced, ..s },
                    new_or(new_l, l),
                    new_or(new_r, r),
                );
            }
        }
    }
}

/// However many steps are allowed beyond those that are enough, the answer is the same.
proof fn matched_settles_for_good(f: nat, g: nat, around: Surroundings, s: Unified, l: Ty, r: Ty)
    requires
        f <= g,
        matched(f, around, s, l, r) is Some,
    ensures
        matched(g, around, s, l, r) == matched(f, around, s, l, r),
    decreases g,
{
    if f < g {
        matched_settles_for_good(f, (g - 1) as nat, around, s, l, r);
        matched_settles((g - 1) as nat, around, s, l, r);
    }
}

/// What comes of matching `l` and `r`, however many steps it takes. There is no answer where it
/// takes steps without end.
pub open spec fn unified(around: Surroundings, s: Unified, l: Ty, r: Ty) -> Step {
    if exists|f: nat| (#[trigger] matched(f, around, s, l, r)) is Some {
        matched(choose|f: nat| (#[trigger] matched(f, around, s, l, r)) is Some, around, s, l, r)
    } else {
        None
    }
}

/// Any number of steps that is enough gives the answer.
pub proof fn unified_by(f: nat, around: Surroundings, s: Unified, l: Ty, r: Ty)
    requires
        matched(f, around, s, l, r) is Some,
    ensures
        unified(around, s, l, r) == matched(f, around, s, l, r),
{
    let g = choose|f: nat| (#[trigger] matched(f, around, s, l, r)) is Some;
    if f <= g {
        matched_settles_for_good(f, g, around, s, l, r);
    } else {
        matched_settles_for_good(g, f, around, s, l, r);
    }
}

/// What unification starts from.
pub open spec fn no_faults(s: Unified) -> Unified {
    Unified { faults: Seq::empty(), ..s }
}

/// `res` is what `step` ended with: the faults, or the left type with what became of it.
pub open spec fn is_outcome(res: Result<ArcType, Vec<Error>>, step: Step, l: Ty) -> bool {
    match (step, res) {
        (Some((s, new)), Ok(typ)) => s.faults.len() == 0 && typ@ == new_or(new, l),
        (Some((s, _)), Err(errors)) => s.faults.len() > 0 && faults(errors@) == s.faults,
        (None, _) => false,
    }
}

fn run<'a, 'b, E: TypeEnv>(
    state: &mut State<'a, E>,
    signature: &Signature<'b>,
    l: &ArcType,
    r: &ArcType,
) -> (res: Result<ArcType, Vec<Error>>)
    requires
        unified(signature.around(old(state).infos()), no_faults(old(state)@), l@, r@) is Some,
    ensures
        final(state).infos() == old(state).infos(),
        unified(signature.around(old(state).infos()), no_faults(old(state)@), l@, r@) matches Some(
            (s, _),
        ) && final(state)@ == no_faults(s),
        is_outcome(
            res,
            unified(signature.around(old(state).infos()), no_faults(old(state)@), l@, r@),
            l@,
        ),
{
    let ghost around = signature.around(state.infos());
    state.errors = Vec::new();
    assert(state@.faults =~= Seq::<Fault>::empty());
    let ghost f = choose|f: nat| (#[trigger] matched(f, around, state@, l@, r@)) is Some;
    let typ = state.try_match(signature, l, r, Ghost(f));
    let mut errors: Vec<Error> = Vec::new();
    std::mem::swap(&mut errors, &mut state.errors);
    assert(state@.faults =~= Seq::<Fault>::empty());
    if errors.len() > 0 {
        Err(errors)
    } else {
        Ok(new_type_or(&typ, l))
    }
}

/// Unifies `l` and `r`: binds type variables so that they become the same type.
pub fn unify<'a, E: TypeEnv>(state: &mut State<'a, E>, l: &ArcType, r: &ArcType) -> (res: Result<
    ArcType,
    Vec<Error>,
>)
    requires
        unified(
            (Surroundings { infos: old(state).infos(), signature: None }),
            no_faults(old(state)@),
            l@,
            r@,
        ) is Some,
    ensures
        final(state).infos() == old(state).infos(),
        unified(
            (Surroundings { infos: old(state).infos(), signature: None }),
            no_faults(old(state)@),
            l@,
            r@,
        ) matches Some((s, _)) && final(state)@ == no_faults(s),
        is_outcome(
            res,
            unified(
                (Surroundings { infos: old(state).infos(), signature: None }),
                no_faults(old(state)@),
                l@,
                r@,
            ),
            l@,
        ),
{
    run(state, &Signature { variables: None, level: 0 }, l, r)
}

/// Unifies the signature `l` with the type `r`. `variables` are the types that the parameters in
/// scope were instantiated with and `level` is the first variable inside the scope of the signature.
pub fn merge_signature<'a, E: TypeEnv>(
    variables: &SymbolMap<ArcType>,
    level: u32,
    state: &mut State<'a, E>,
    l: &ArcType,
    r: &ArcType,
) -> (res: Result<ArcType, Vec<Error>>)
    requires
        unified(
            (Surroundings {
                infos: old(state).infos(),
                signature: Some((map_view(variables@), level)),
            }),
            no_faults(old(state)@),
            l@,
            r@,
        ) is Some,
    ensures
        final(state).infos() == old(state).infos(),
        unified(
            (Surroundings {
                infos: old(state).infos(),
                signature: Some((map_view(variables@), level)),
            }),
            no_faults(old(state)@),
            l@,
            r@,
        ) matches Some((s, _)) && final(state)@ == no_faults(s),
        is_outcome(
            res,
            unified(
                (Surroundings {
                    infos: old(state).infos(),
                    signature: Some((map_view(variables@), level)),
                }),
                no_faults(old(state)@),
                l@,
                r@,
            ),
            l@,
        ),
{
    run(state, &Signature { variables: Some(variables), level }, l, r)
}

/// `names` in a sentence: with commas, and an "and" before the last one.
pub open spec fn enumerated(names: Seq<Seq<char>>, n: nat) -> Seq<char>
    decreases n,
{
    if n == 0 || n > names.len() {
        Seq::empty()
    } else {
        let sep = if n == 1 {
            Seq::empty()
        } else if n < names.len() {
            ", "@
        } else {
            " and "@
        };
        enumerated(names, (n - 1) as nat) + sep + names[n - 1]
    }
}

/// `names` in a sentence.
fn enumerate(names: &Vec<Symbol>) -> (res: String)
    ensures
        res@ == enumerated(symbols_view(names@), names@.len()),
{
    let ghost all = symbols_view(names@);
    let mut res = String::new();
    let mut i: usize = 0;
    let len: usize = names.len();
    while i < len
        invariant
            i <= len == names@.len(),
            all == symbols_view(names@),
            res@ == enumerated(all, i as nat),
        decreases len - i,
    {
        let ghost before = res@;
        if i > 0 {
            if i + 1 < len {
                res.append(", ");
            } else {
                res.append(" and ");
            }
        }
        assert(before + Seq::<char>::empty() =~= before);
        res.append(names[i].as_str());
        i += 1;
    }
    res
}

impl TypeError {
    /// The type in the error can be printed.
    pub open spec fn printable(&self) -> bool {
        self matches TypeError::MissingFields(typ, _) ==> printable(typ@)
    }

    /// The message for the error, with the types printed by `printer`.
    pub open spec fn text(&self, printer: &Printer) -> Seq<char> {
        match self {
            TypeError::FieldMismatch(l, r) => {
                "Field names in record do not match.\n\tExpected: "@ + l@ + "\n\tFound: "@ + r@
            },
            TypeError::UndefinedType(id) => "Type `"@ + id@ + "` does not exist."@,
            TypeError::SelfRecursive(id) => "The use of self recursion in type `"@ + id@
                + "` could not be unified."@,
            TypeError::UnableToGeneralize(id) => "Could not generalize the variable bound to `"@
                + id@ + "` as the variable was used outside its scope"@,
            TypeError::MissingFields(typ, fields) => "The type `"@ + type_text(printer, typ@, 80)
                + "` lacks the following fields: "@ + enumerated(
                symbols_view(fields@),
                fields@.len(),
            ),
        }
    }

    /// The message for the error.
    pub fn message(&self) -> (res: String)
        requires
            self.printable(),
        ensures
            exists|printer: Printer| #[trigger] printer.keeps_all() && res@ == self.text(&printer),
    {
        let printer = Printer::new();
        assert(printer.keeps_all());
        self.message_by(&printer)
    }

    /// The message for the error, with the types printed by `printer`.
    pub fn message_by(&self, printer: &Printer) -> (res: String)
        requires
            self.printable(),
        ensures
            res@ == self.text(printer),
    {
        match self {
            TypeError::FieldMismatch(l, r) => {
                let mut res = join(
                    "Field names in record do not match.\n\tExpected: ",
                    l.as_str(),
                );
                res.append("\n\tFound: ");
                res.append(r.as_str());
                res
            },
            TypeError::UndefinedType(id) => {
                let mut res = join("Type `", id.as_str());
                res.append("` does not exist.");
                res
            },
            TypeError::SelfRecursive(id) => {
                let mut res = join("The use of self recursion in type `", id.as_str());
                res.append("` could not be unified.");
                res
            },
            TypeError::UnableToGeneralize(id) => {
                let mut res = join("Could not generalize the variable bound to `", id.as_str());
                res.append("` as the variable was used outside its scope");
                res
            },
            TypeError::MissingFields(typ, fields) => {
                let text = pretty_print(printer, typ).group().pretty(80);
                let mut res = join("The type `", text.as_str());
                res.append("` lacks the following fields: ");
                res.append(enumerate(fields).as_str());
                res
            },
        }
    }
}

} // verus!
