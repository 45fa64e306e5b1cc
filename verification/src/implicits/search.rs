//! The choice among implicit bindings.

use std::rc::Rc;
use vstd::prelude::*;
use crate::ast::{Expr, SpannedExpr, TypedIdent};
use crate::implicits::error::{AmbiguityEntry, Error, ErrorKind};
use crate::implicits::partition::{path_view, shared_view};
use crate::implicits::store::{
    no_types, same_types, type_before, types_in, BindingTy, ImplicitBinding,
};
use crate::pos::{Span, Spanned};
use crate::text::strings_view;
use crate::types::model::{parts_decrease, Ty};
use crate::types::query::{implicit_args, without_implicit_args};
use crate::types::{ArcType, ArgType, Type};

verus! {

/// How the size of a type compares to that of another one.
#[derive(Copy, Clone, Eq, PartialEq, Structural, Debug)]
pub enum Size {
    Smaller,
    Different,
    Equal,
}

/// How a new type compares to an old one, given that the new one compares to the old one as `new`
/// and the old one to the new one as `old`. Two types of which each is smaller than the other are
/// different.
pub open spec fn smaller_of(new: Size, old: Size) -> Size {
    if new == Size::Smaller && old == Size::Smaller {
        Size::Different
    } else {
        new
    }
}

/// How a new type compares to an old one, given how they compare in both directions.
pub fn smaller(new: Size, old: Size) -> (res: Size)
    ensures
        res == smaller_of(new, old),
{
    match new {
        Size::Smaller => match old {
            Size::Smaller => Size::Different,
            _ => Size::Smaller,
        },
        check => check,
    }
}

/// How the first `n` of some types compare to others: as the first pair that differs does.
pub open spec fn first_difference(sizes: Seq<(Size, Size)>, n: nat) -> Size
    decreases n,
{
    if n == 0 || n > sizes.len() {
        Size::Equal
    } else {
        match first_difference(sizes, (n - 1) as nat) {
            Size::Equal => smaller_of(sizes[n - 1].0, sizes[n - 1].1),
            other => other,
        }
    }
}

/// Whether new types are smaller than `old_types` old ones, given how they compare in both
/// directions.
pub fn smallers(sizes: &Vec<(Size, Size)>, old_types: usize) -> (res: bool)
    ensures
        res == (old_types == 0 || first_difference(sizes@, sizes@.len()) == Size::Smaller),
{
    if old_types == 0 {
        return true;
    }
    let mut acc = Size::Equal;
    let mut i: usize = 0;
    while i < sizes.len()
        invariant
            i <= sizes@.len(),
            acc == first_difference(sizes@, i as nat),
        decreases sizes@.len() - i,
    {
        acc =
        match acc {
            Size::Different => Size::Different,
            Size::Smaller => Size::Smaller,
            Size::Equal => smaller(sizes[i].0, sizes[i].1),
        };
        i += 1;
    }
    acc == Size::Smaller
}

/// An implicit argument that is to be found.
pub struct Demand {
    /// The types that it is required for, the innermost first.
    pub reason: rpds::List<ArcType>,
    pub constraint: ArcType,
}

impl Demand {
    /// The demand for `constraint` that nothing but the argument itself gives rise to.
    pub fn new(constraint: ArcType) -> (res: Demand)
        ensures
            demands(res, Seq::empty(), constraint@),
    {
        Demand { reason: no_types(), constraint }
    }
}

/// `demand` asks for `t` because of `reason`.
pub open spec fn demands(demand: Demand, reason: Seq<Ty>, t: Ty) -> bool {
    types_in(demand.reason) == reason && demand.constraint@ == t
}

/// What a binding of the type `binding_type` demands when it is taken for `demand`, and the type that
/// it has without its implicit arguments.
pub fn demands_of(demand: &Demand, binding_type: &ArcType) -> (res: (Vec<Demand>, ArcType))
    ensures
        res.0@.len() == implicit_args(binding_type@).len(),
        forall|i: int|
            0 <= i < res.0@.len() ==> demands(
                #[trigger] res.0@[i],
                seq![binding_type@] + types_in(demand.reason),
                implicit_args(binding_type@)[i],
            ),
        res.1@ == without_implicit_args(binding_type@),
{
    let ghost all = implicit_args(binding_type@);
    let ghost reason = seq![binding_type@] + types_in(demand.reason);
    let mut res: Vec<Demand> = Vec::new();
    let mut typ = binding_type.clone();
    assert(all.skip(0) =~= all);
    loop
        invariant
            without_implicit_args(typ@) == without_implicit_args(binding_type@),
            all == implicit_args(binding_type@),
            reason == seq![binding_type@] + types_in(demand.reason),
            res@.len() <= all.len(),
            implicit_args(typ@) == all.skip(res@.len() as int),
            forall|i: int| 0 <= i < res@.len() ==> demands(#[trigger] res@[i], reason, all[i]),
        decreases typ@,
    {
        let ghost i = res@.len() as int;
        proof {
            parts_decrease(typ@);
        }
        let next = match typ.as_type() {
            Type::Function(ArgType::Implicit, arg, ret) => {
                proof {
                    let rest = implicit_args(ret@);
                    assert(all.skip(i)[0] == (seq![arg@] + rest)[0]);
                    assert(all.skip(i + 1) =~= (seq![arg@] + rest).skip(1));
                    assert((seq![arg@] + rest).skip(1) =~= rest);
                }
                res.push(
                    Demand {
                        reason: type_before(&demand.reason, binding_type.clone()),
                        constraint: arg.clone(),
                    },
                );
                ret.clone()
            },
            _ => {
                return (res, typ);
            },
        };
        typ = next;
    }
}

/// The names in `path` with dots between them.
pub open spec fn dotted(path: Seq<(Seq<char>, Ty)>, n: nat) -> Seq<char>
    decreases n,
{
    if n == 0 || n > path.len() {
        Seq::empty()
    } else if n == 1 {
        path[0].0
    } else {
        dotted(path, (n - 1) as nat) + "."@ + path[n - 1].0
    }
}

/// The names in `path` with dots between them.
pub fn path_text(path: &Vec<TypedIdent>) -> (res: String)
    ensures
        res@ == dotted(path_view(path@), path@.len()),
{
    let ghost all = path_view(path@);
    let mut res = String::new();
    let mut i: usize = 0;
    while i < path.len()
        invariant
            i <= path@.len(),
            all == path_view(path@),
            res@ == dotted(all, i as nat),
        decreases path@.len() - i,
    {
        if i > 0 {
            res.append(".");
        }
        assert(i == 0 ==> res@ + all[0].0 =~= all[0].0);
        res.append(path[i].name.as_str());
        i += 1;
    }
    res
}

/// The first candidate from `i` on that fits.
pub open spec fn first_fit(fits: Seq<bool>, i: int) -> Option<int>
    decreases fits.len() - i,
{
    if i < 0 || i >= fits.len() {
        None
    } else if fits[i] {
        Some(i)
    } else {
        first_fit(fits, i + 1)
    }
}

/// The first candidate that fits.
pub fn find_candidate(fits: &Vec<bool>) -> (res: Option<usize>)
    ensures
        match res {
            Some(i) => first_fit(fits@, 0) == Some(i as int) && i < fits@.len() && fits@[i as int],
            None => first_fit(fits@, 0) is None,
        },
{
    let mut i: usize = 0;
    while i < fits.len()
        invariant
            i <= fits@.len(),
            first_fit(fits@, 0) == first_fit(fits@, i as int),
        decreases fits@.len() - i,
    {
        if fits[i] {
            return Some(i);
        }
        i += 1;
    }
    None
}

/// The candidates from `from` up to `n` that fit.
pub open spec fn other_fits(
    bindings: Seq<BindingTy>,
    fits: Seq<bool>,
    from: int,
    n: int,
) -> Seq<BindingTy>
    decreases n - from,
{
    if n <= from || n > fits.len() || n > bindings.len() {
        Seq::empty()
    } else {
        let before = other_fits(bindings, fits, from, n - 1);
        if fits[n - 1] {
            before.push(bindings[n - 1])
        } else {
            before
        }
    }
}

/// What is said of a candidate.
pub struct EntryTy {
    pub path: Seq<char>,
    pub typ: Ty,
}

pub open spec fn entry_of_binding(binding: BindingTy) -> EntryTy {
    EntryTy { path: dotted(binding.path, binding.path.len()), typ: binding.typ }
}

pub open spec fn entries_of(bindings: Seq<BindingTy>) -> Seq<EntryTy> {
    bindings.map_values(|binding: BindingTy| entry_of_binding(binding))
}

pub open spec fn entries_view(entries: Seq<AmbiguityEntry>) -> Seq<EntryTy> {
    entries.map_values(|entry: AmbiguityEntry| EntryTy { path: entry.path@, typ: entry.typ@ })
}

/// The kind of error that there is.
pub enum Trouble {
    Missing(Ty),
    Loop(Seq<Seq<char>>),
    Ambiguous(Seq<EntryTy>),
}

pub open spec fn trouble(kind: ErrorKind) -> Trouble {
    match kind {
        ErrorKind::MissingImplicit(typ) => Trouble::Missing(typ@),
        ErrorKind::LoopInImplicitResolution(paths) => Trouble::Loop(strings_view(paths@)),
        ErrorKind::AmbiguousImplicit(entries) => Trouble::Ambiguous(entries_view(entries@)),
    }
}

/// What comes of looking for `t` among `bindings` of which those in `fits` fit. The first that fits
/// is taken. It must not be `looping`: taken before for demands that were not larger. No other may
/// fit.
pub open spec fn chosen(
    t: Ty,
    bindings: Seq<BindingTy>,
    fits: Seq<bool>,
    looping: bool,
) -> Result<int, Trouble> {
    match first_fit(fits, 0) {
        None => Err(Trouble::Missing(t)),
        Some(i) => {
            let others = other_fits(bindings, fits, i + 1, fits.len() as int);
            let path = bindings[i].path;
            if looping {
                Err(Trouble::Loop(seq![dotted(path, path.len())]))
            } else if others.len() == 0 {
                Ok(i)
            } else {
                Err(Trouble::Ambiguous(entries_of(others).push(entry_of_binding(bindings[i]))))
            }
        },
    }
}

fn to_entry(binding: &ImplicitBinding) -> (res: AmbiguityEntry)
    ensures
        (EntryTy { path: res.path@, typ: res.typ@ }) == entry_of_binding(binding@),
{
    assert(binding@.path == path_view(binding.path@));
    assert(path_view(binding.path@).len() == binding.path@.len());
    AmbiguityEntry { path: path_text(&binding.path), typ: binding.typ.clone() }
}

/// The candidate that is taken for `demand`: `fits` tells which of `candidates` fit, and `looping`
/// whether the first of them was taken before for demands that were not larger.
#[verifier::rlimit(30)]
pub fn find_implicit(
    demand: &Demand,
    candidates: &Vec<Rc<ImplicitBinding>>,
    fits: &Vec<bool>,
    looping: bool,
) -> (res: Result<usize, Error>)
    requires
        fits@.len() == candidates@.len(),
    ensures
        match (
            res,
            chosen(demand.constraint@, shared_view(candidates@), fits@, looping),
        ) {
            (Ok(i), Ok(j)) => i == j && i < candidates@.len(),
            (Err(error), Err(trouble_)) => trouble(error.kind) == trouble_ && types_in(
                error.reason,
            ) == types_in(demand.reason),
            _ => false,
        },
{
    let ghost all = shared_view(candidates@);
    let first: usize = match find_candidate(fits) {
        Some(i) => i,
        None => {
            return Err(
                Error {
                    kind: ErrorKind::MissingImplicit(demand.constraint.clone()),
                    reason: same_types(&demand.reason),
                },
            );
        },
    };
    let candidate = &candidates[first];
    assert(all[first as int] == candidate@);
    if looping {
        let paths = vec![path_text(&candidate.path)];
        assert(candidate@.path == path_view(candidate.path@));
        assert(strings_view(paths@) =~= seq![
            dotted(all[first as int].path, all[first as int].path.len()),
        ]);
        return Err(
            Error {
                kind: ErrorKind::LoopInImplicitResolution(paths),
                reason: same_types(&demand.reason),
            },
        );
    }
    let mut additional: Vec<AmbiguityEntry> = Vec::new();
    let len: usize = fits.len();
    assert(first < len);
    let mut i: usize = first + 1;
    assert(entries_view(additional@) =~= entries_of(
        other_fits(all, fits@, first + 1, first + 1),
    ));
    while i < fits.len()
        invariant
            first < i <= fits@.len() == candidates@.len(),
            all == shared_view(candidates@),
            entries_view(additional@) == entries_of(
                other_fits(all, fits@, first + 1, i as int),
            ),
        decreases fits@.len() - i,
    {
        if fits[i] {
            let ghost before = additional@;
            let entry = to_entry(&candidates[i]);
            additional.push(entry);
            proof {
                let old = other_fits(all, fits@, first + 1, i as int);
                assert(entries_view(additional@) =~= entries_view(before).push(
                    entry_of_binding(all[i as int]),
                ));
                assert(entries_of(old.push(all[i as int])) =~= entries_of(old).push(
                    entry_of_binding(all[i as int]),
                ));
            }
        }
        i += 1;
    }
    let ghost others = other_fits(all, fits@, first + 1, fits@.len() as int);
    assert(entries_of(others).len() == others.len());
    assert(entries_view(additional@).len() == additional@.len());
    if additional.len() == 0 {
        Ok(first)
    } else {
        let ghost before = additional@;
        let entry = to_entry(candidate);
        additional.push(entry);
        assert(entries_view(additional@) =~= entries_view(before).push(
            entry_of_binding(all[first as int]),
        ));
        Err(
            Error {
                kind: ErrorKind::AmbiguousImplicit(additional),
                reason: same_types(&demand.reason),
            },
        )
    }
}

/// The error when `path` was being resolved: a loop goes through it too.
pub fn through(error: Error, path: &Vec<TypedIdent>) -> (res: Error)
    ensures
        types_in(res.reason) == types_in(error.reason),
        trouble(res.kind) == match trouble(error.kind) {
            Trouble::Loop(paths) => Trouble::Loop(
                paths.push(dotted(path_view(path@), path@.len())),
            ),
            other => other,
        },
{
    match error.kind {
        ErrorKind::LoopInImplicitResolution(paths) => {
            let ghost before = paths@;
            let mut paths = paths;
            let text = path_text(path);
            paths.push(text);
            assert(strings_view(paths@) =~= strings_view(before).push(text@));
            Error { kind: ErrorKind::LoopInImplicitResolution(paths), reason: error.reason }
        },
        kind => Error { kind, reason: error.reason },
    }
}

/// `expr` is the value that the first `n` names of `path` lead to.
pub open spec fn reaches(expr: SpannedExpr, span: Span, path: Seq<(Seq<char>, Ty)>, n: nat) -> bool
    decreases n,
{
    expr.span == span && 0 < n <= path.len() && if n == 1 {
        expr.value matches Expr::Ident(id) && id.name@ == path[0].0 && id.typ@ == path[0].1
    } else {
        expr.value matches Expr::Projection(inner, field, typ) && field@ == path[n - 1].0 && typ@
            == path[n - 1].1 && reaches(*inner, span, path, (n - 1) as nat)
    }
}

/// The value that `path` leads to.
pub fn path_expr(span: Span, path: &Vec<TypedIdent>) -> (res: SpannedExpr)
    requires
        path@.len() > 0,
    ensures
        reaches(res, span, path_view(path@), path@.len()),
{
    let mut expr = Spanned {
        span,
        value: Expr::Ident(
            TypedIdent { name: path[0].name.clone(), typ: path[0].typ.clone() },
        ),
    };
    let mut i: usize = 1;
    while i < path.len()
        invariant
            0 < i <= path@.len(),
            reaches(expr, span, path_view(path@), i as nat),
        decreases path@.len() - i,
    {
        expr =
        Spanned {
            span,
            value: Expr::Projection(Box::new(expr), path[i].name.clone(), path[i].typ.clone()),
        };
        i += 1;
    }
    expr
}

/// The function `func`, which demands `demanded` implicit arguments, applied to those that were found,
/// if all were.
pub fn apply_implicits(span: Span, func: SpannedExpr, demanded: usize, args: Vec<SpannedExpr>) -> (res:
    Option<SpannedExpr>)
    ensures
        res == if demanded == 0 {
            Some(func)
        } else if args@.len() == demanded {
            Some(Spanned { span, value: Expr::App(Box::new(func), args) })
        } else {
            None
        },
{
    if demanded == 0 {
        Some(func)
    } else if args.len() == demanded {
        Some(Spanned { span, value: Expr::App(Box::new(func), args) })
    } else {
        None
    }
}

} // verus!
