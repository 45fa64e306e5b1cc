//! The kinds of types.

use vstd::prelude::*;
use crate::kind::{ArcKind, Kind};
use crate::resolve::TypeEnv;
use crate::symbol::Symbol;
use crate::ast::TypeBinding;
use crate::typecheck::infer::scoped_name;
use crate::typecheck::model::{Inferred, Known};
use crate::typecheck::settle::{refreshed, Renames};
use crate::typecheck::state::Typecheck;
use crate::types::model::{parts_decrease, AliasTy, FieldTy, GenericTy, Ty};
use crate::types::{
    fields_view, generics_view, types_view, ArcType, BuiltinType, Field, Generic, Type,
};

verus! {

/// What the variables of kinds are bound to.
pub type KindSubst = Seq<Option<Kind>>;

/// Why kinds do not agree.
pub enum KindFault {
    Mismatch(Kind, Kind),
    Occurs(u32, Kind),
}

pub open spec fn kind_in(kind: ArcKind) -> Kind {
    *kind
}

/// `kind` with its variables replaced by what they are bound to.
pub open spec fn kind_settled(subst: KindSubst, kind: Kind) -> Kind
    decreases kind,
{
    match kind {
        Kind::Variable(id) => if id < subst.len() {
            match subst[id as int] {
                Some(bound) => bound,
                None => kind,
            }
        } else {
            kind
        },
        Kind::Function(arg, ret) => Kind::Function(
            std::sync::Arc::new(kind_settled(subst, *arg)),
            std::sync::Arc::new(kind_settled(subst, *ret)),
        ),
        _ => kind,
    }
}

/// `kind` with `by` in the place of the variable `id`.
pub open spec fn kind_replaced(kind: Kind, id: u32, by: Kind) -> Kind
    decreases kind,
{
    match kind {
        Kind::Variable(other) => if other == id {
            by
        } else {
            kind
        },
        Kind::Function(arg, ret) => Kind::Function(
            std::sync::Arc::new(kind_replaced(*arg, id, by)),
            std::sync::Arc::new(kind_replaced(*ret, id, by)),
        ),
        _ => kind,
    }
}

/// The variable `id` occurs in `kind`.
pub open spec fn kind_occurs(kind: Kind, id: u32) -> bool
    decreases kind,
{
    match kind {
        Kind::Variable(other) => other == id,
        Kind::Function(arg, ret) => kind_occurs(*arg, id) || kind_occurs(*ret, id),
        _ => false,
    }
}

/// The variable `id` bound to `kind`, in what others are bound to too.
pub open spec fn kind_bound(subst: KindSubst, id: u32, kind: Kind) -> KindSubst {
    Seq::new(
        subst.len(),
        |i: int|
            if i == id {
                Some(kind)
            } else {
                match subst[i] {
                    Some(bound) => Some(kind_replaced(bound, id, kind)),
                    None => None,
                }
            },
    )
}

/// How many variables are not bound.
pub open spec fn unbound(subst: KindSubst) -> nat
    decreases subst.len(),
{
    if subst.len() == 0 {
        0
    } else {
        unbound(subst.drop_last()) + if subst.last() is None {
            1nat
        } else {
            0
        }
    }
}

/// The variable `id`, which is not bound, made the same as `kind`.
pub open spec fn variable_unified(subst: KindSubst, id: u32, kind: Kind) -> Result<
    KindSubst,
    KindFault,
> {
    if kind_occurs(kind, id) {
        Err(KindFault::Occurs(id, kind))
    } else if id < subst.len() && subst[id as int] is None {
        Ok(kind_bound(subst, id, kind))
    } else {
        Err(KindFault::Mismatch(Kind::Variable(id), kind))
    }
}

/// Makes `l` and `r` the same kind. Their variables are not bound.
pub open spec fn kinds_unified(subst: KindSubst, l: Kind, r: Kind) -> Result<KindSubst, KindFault>
    decreases unbound(subst), l,
{
    match (l, r) {
        (Kind::Variable(a), Kind::Variable(b)) if a == b => Ok(subst),
        (Kind::Variable(a), _) => variable_unified(subst, a, r),
        (_, Kind::Variable(b)) => variable_unified(subst, b, l),
        (Kind::Function(la, lr), Kind::Function(ra, rr)) => match kinds_unified(subst, *la, *ra) {
            Err(fault) => Err(fault),
            Ok(after) => if unbound(after) < unbound(subst) {
                kinds_unified(after, kind_settled(after, *lr), kind_settled(after, *rr))
            } else {
                kinds_unified(subst, *lr, *rr)
            },
        },
        _ => if l == r {
            Ok(subst)
        } else {
            Err(KindFault::Mismatch(l, r))
        },
    }
}

proof fn binding_binds(subst: KindSubst, id: u32, kind: Kind)
    requires
        id < subst.len(),
        subst[id as int] is None,
    ensures
        unbound(kind_bound(subst, id, kind)) < unbound(subst),
    decreases subst.len(),
{
    let last = subst.len() - 1;
    assert(kind_bound(subst, id, kind).drop_last() =~= kind_bound(subst.drop_last(), id, kind));
    if id == last {
        others_stay(subst.drop_last(), id, kind);
    } else {
        binding_binds(subst.drop_last(), id, kind);
    }
}

proof fn others_stay(subst: KindSubst, id: u32, kind: Kind)
    requires
        subst.len() <= id,
    ensures
        unbound(kind_bound(subst, id, kind)) == unbound(subst),
    decreases subst.len(),
{
    if subst.len() > 0 {
        assert(kind_bound(subst, id, kind).drop_last() =~= kind_bound(subst.drop_last(), id, kind));
        others_stay(subst.drop_last(), id, kind);
    }
}

/// Unifying kinds binds a variable or leaves everything as it is.
pub proof fn unifying_kinds_binds(subst: KindSubst, l: Kind, r: Kind)
    ensures
        kinds_unified(subst, l, r) matches Ok(after) ==> after == subst || unbound(after)
            < unbound(subst),
    decreases unbound(subst), l,
{
    match (l, r) {
        (Kind::Variable(a), Kind::Variable(b)) if a == b => {},
        (Kind::Variable(a), _) => {
            if a < subst.len() && subst[a as int] is None {
                binding_binds(subst, a, r);
            }
        },
        (_, Kind::Variable(b)) => {
            if b < subst.len() && subst[b as int] is None {
                binding_binds(subst, b, l);
            }
        },
        (Kind::Function(la, lr), Kind::Function(ra, rr)) => {
            unifying_kinds_binds(subst, kind_in(la), kind_in(ra));
            if let Ok(after) = kinds_unified(subst, kind_in(la), kind_in(ra)) {
                if unbound(after) < unbound(subst) {
                    let (l2, r2) = (kind_settled(after, kind_in(lr)), kind_settled(after, kind_in(rr)));
                    unifying_kinds_binds(after, l2, r2);
                } else {
                    unifying_kinds_binds(subst, kind_in(lr), kind_in(rr));
                }
            }
        },
        _ => {},
    }
}

/// No variable in `kind` is bound.
pub open spec fn is_free(subst: KindSubst, kind: Kind) -> bool
    decreases kind,
{
    match kind {
        Kind::Variable(id) => id < subst.len() ==> subst[id as int] is None,
        Kind::Function(arg, ret) => is_free(subst, *arg) && is_free(subst, *ret),
        _ => true,
    }
}

/// No variable in what variables are bound to is bound itself.
pub open spec fn is_solved(subst: KindSubst) -> bool {
    forall|i: int|
        0 <= i < subst.len() ==> (#[trigger] subst[i] matches Some(bound) ==> is_free(subst, bound))
}

/// `after` binds what `before` does, and maybe more.
pub open spec fn refines(before: KindSubst, after: KindSubst) -> bool {
    forall|kind: Kind| #[trigger]
        kind_settled(after, kind_settled(before, kind)) == kind_settled(after, kind)
}

proof fn free_is_settled(subst: KindSubst, kind: Kind)
    requires
        is_free(subst, kind),
    ensures
        kind_settled(subst, kind) == kind,
    decreases kind,
{
    if let Kind::Function(arg, ret) = kind {
        free_is_settled(subst, kind_in(arg));
        free_is_settled(subst, kind_in(ret));
    }
}

proof fn settled_is_free(subst: KindSubst, kind: Kind)
    requires
        is_solved(subst),
    ensures
        is_free(subst, kind_settled(subst, kind)),
    decreases kind,
{
    if let Kind::Function(arg, ret) = kind {
        settled_is_free(subst, kind_in(arg));
        settled_is_free(subst, kind_in(ret));
    }
}

proof fn not_replaced(kind: Kind, id: u32, by: Kind)
    requires
        !kind_occurs(kind, id),
    ensures
        kind_replaced(kind, id, by) == kind,
    decreases kind,
{
    if let Kind::Function(arg, ret) = kind {
        not_replaced(kind_in(arg), id, by);
        not_replaced(kind_in(ret), id, by);
    }
}

proof fn free_without(subst: KindSubst, id: u32, by: Kind, kind: Kind)
    requires
        is_free(subst, kind),
        !kind_occurs(kind, id),
    ensures
        is_free(kind_bound(subst, id, by), kind),
    decreases kind,
{
    if let Kind::Function(arg, ret) = kind {
        free_without(subst, id, by, kind_in(arg));
        free_without(subst, id, by, kind_in(ret));
    }
}

proof fn replaced_is_free(subst: KindSubst, id: u32, by: Kind, kind: Kind)
    requires
        is_free(subst, kind),
        is_free(subst, by),
        !kind_occurs(by, id),
    ensures
        is_free(kind_bound(subst, id, by), kind_replaced(kind, id, by)),
    decreases kind,
{
    match kind {
        Kind::Variable(other) => {
            if other == id {
                free_without(subst, id, by, by);
            }
        },
        Kind::Function(arg, ret) => {
            replaced_is_free(subst, id, by, kind_in(arg));
            replaced_is_free(subst, id, by, kind_in(ret));
        },
        _ => {},
    }
}

proof fn settled_replaces(subst: KindSubst, id: u32, by: Kind, kind: Kind)
    requires
        id < subst.len(),
        subst[id as int] is None,
    ensures
        kind_settled(kind_bound(subst, id, by), kind) == kind_replaced(
            kind_settled(subst, kind),
            id,
            by,
        ),
    decreases kind,
{
    if let Kind::Function(arg, ret) = kind {
        settled_replaces(subst, id, by, kind_in(arg));
        settled_replaces(subst, id, by, kind_in(ret));
    }
}

proof fn binding_refines(subst: KindSubst, id: u32, by: Kind)
    requires
        is_solved(subst),
        id < subst.len(),
        subst[id as int] is None,
        is_free(subst, by),
        !kind_occurs(by, id),
    ensures
        is_solved(kind_bound(subst, id, by)),
        refines(subst, kind_bound(subst, id, by)),
        kind_settled(kind_bound(subst, id, by), by) == by,
{
    let after = kind_bound(subst, id, by);
    assert forall|i: int| 0 <= i < after.len() implies (#[trigger] after[i] matches Some(
        bound,
    ) ==> is_free(after, bound)) by {
        if i == id {
            free_without(subst, id, by, by);
        } else if let Some(bound) = subst[i] {
            replaced_is_free(subst, id, by, bound);
        }
    }
    assert forall|kind: Kind| #[trigger]
        kind_settled(after, kind_settled(subst, kind)) == kind_settled(after, kind) by {
        settled_is_free(subst, kind);
        free_is_settled(subst, kind_settled(subst, kind));
        settled_replaces(subst, id, by, kind_settled(subst, kind));
        settled_replaces(subst, id, by, kind);
    }
    free_is_settled(subst, by);
    settled_replaces(subst, id, by, by);
    not_replaced(by, id, by);
}

proof fn refines_itself(subst: KindSubst)
    requires
        is_solved(subst),
    ensures
        refines(subst, subst),
{
    assert forall|kind: Kind| #[trigger]
        kind_settled(subst, kind_settled(subst, kind)) == kind_settled(subst, kind) by {
        settled_is_free(subst, kind);
        free_is_settled(subst, kind_settled(subst, kind));
    }
}

proof fn refines_through(a: KindSubst, b: KindSubst, c: KindSubst)
    requires
        refines(a, b),
        refines(b, c),
    ensures
        refines(a, c),
{
    assert forall|kind: Kind| #[trigger]
        kind_settled(c, kind_settled(a, kind)) == kind_settled(c, kind) by {
        assert(kind_settled(c, kind_settled(b, kind_settled(a, kind))) == kind_settled(
            c,
            kind_settled(a, kind),
        ));
        assert(kind_settled(b, kind_settled(a, kind)) == kind_settled(b, kind));
        assert(kind_settled(c, kind_settled(b, kind)) == kind_settled(c, kind));
    }
}

/// Kinds that were unified are the same kind, and what was bound before stays bound.
pub proof fn unified_kinds_are_the_same(subst: KindSubst, l: Kind, r: Kind)
    requires
        is_solved(subst),
        is_free(subst, l),
        is_free(subst, r),
    ensures
        kinds_unified(subst, l, r) matches Ok(after) ==> {
            &&& is_solved(after)
            &&& refines(subst, after)
            &&& kind_settled(after, l) == kind_settled(after, r)
        },
    decreases unbound(subst), l,
{
    refines_itself(subst);
    match (l, r) {
        (Kind::Variable(a), Kind::Variable(b)) if a == b => {},
        (Kind::Variable(a), _) => {
            if !kind_occurs(r, a) && a < subst.len() && subst[a as int] is None {
                binding_refines(subst, a, r);
            }
        },
        (_, Kind::Variable(b)) => {
            if !kind_occurs(l, b) && b < subst.len() && subst[b as int] is None {
                binding_refines(subst, b, l);
            }
        },
        (Kind::Function(la, lr), Kind::Function(ra, rr)) => {
            unifying_kinds_binds(subst, kind_in(la), kind_in(ra));
            unified_kinds_are_the_same(subst, kind_in(la), kind_in(ra));
            if let Ok(mid) = kinds_unified(subst, kind_in(la), kind_in(ra)) {
                let (next, l2, r2) = if unbound(mid) < unbound(subst) {
                    (mid, kind_settled(mid, kind_in(lr)), kind_settled(mid, kind_in(rr)))
                } else {
                    (subst, kind_in(lr), kind_in(rr))
                };
                if unbound(mid) < unbound(subst) {
                    settled_is_free(mid, kind_in(lr));
                    settled_is_free(mid, kind_in(rr));
                }
                unified_kinds_are_the_same(next, l2, r2);
                if let Ok(after) = kinds_unified(next, l2, r2) {
                    refines_through(subst, next, after);
                    assert(kind_settled(after, kind_settled(next, kind_in(la))) == kind_settled(
                        after,
                        kind_in(la),
                    ));
                    assert(kind_settled(after, kind_settled(next, kind_in(ra))) == kind_settled(
                        after,
                        kind_in(ra),
                    ));
                    assert(kind_settled(after, kind_settled(next, kind_in(lr))) == kind_settled(
                        after,
                        kind_in(lr),
                    ));
                    assert(kind_settled(after, kind_settled(next, kind_in(rr))) == kind_settled(
                        after,
                        kind_in(rr),
                    ));
                }
            }
        },
        _ => {},
    }
}

pub open spec fn kinds_view(kinds: Seq<Option<ArcKind>>) -> KindSubst {
    kinds.map_values(
        |kind: Option<ArcKind>|
            match kind {
                Some(kind) => Some(*kind),
                None => None,
            },
    )
}

/// Error found when trying to unify two kinds
pub enum Error {
    TypeMismatch(ArcKind, ArcKind),
    Occurs(u32, ArcKind),
}

impl View for Error {
    type V = KindFault;

    open spec fn view(&self) -> KindFault {
        match self {
            Error::TypeMismatch(l, r) => KindFault::Mismatch(**l, **r),
            Error::Occurs(id, kind) => KindFault::Occurs(*id, **kind),
        }
    }
}

fn settle_kind(subst: &Vec<Option<ArcKind>>, kind: &ArcKind) -> (res: ArcKind)
    ensures
        *res == kind_settled(kinds_view(subst@), **kind),
    decreases **kind,
{
    match &**kind {
        Kind::Variable(id) => {
            let i: usize = *id as usize;
            if i < subst.len() {
                assert(kinds_view(subst@)[i as int] is Some <==> subst@[i as int] is Some);
                match &subst[i] {
                    Some(bound) => bound.clone(),
                    None => kind.clone(),
                }
            } else {
                kind.clone()
            }
        },
        Kind::Function(arg, ret) => {
            let arg = settle_kind(subst, arg);
            Kind::function(arg, settle_kind(subst, ret))
        },
        _ => kind.clone(),
    }
}

fn replace_kind(kind: &ArcKind, id: u32, by: &ArcKind) -> (res: ArcKind)
    ensures
        *res == kind_replaced(**kind, id, **by),
    decreases **kind,
{
    match &**kind {
        Kind::Variable(other) => if *other == id {
            by.clone()
        } else {
            kind.clone()
        },
        Kind::Function(arg, ret) => {
            let arg = replace_kind(arg, id, by);
            Kind::function(arg, replace_kind(ret, id, by))
        },
        _ => kind.clone(),
    }
}

fn does_occur(kind: &ArcKind, id: u32) -> (res: bool)
    ensures
        res == kind_occurs(**kind, id),
    decreases **kind,
{
    match &**kind {
        Kind::Variable(other) => *other == id,
        Kind::Function(arg, ret) => does_occur(arg, id) || does_occur(ret, id),
        _ => false,
    }
}

fn unify_variable(subst: &mut Vec<Option<ArcKind>>, id: u32, kind: &ArcKind) -> (res: Result<
    bool,
    Error,
>)
    ensures
        match (variable_unified(kinds_view(old(subst)@), id, **kind), res) {
            (Ok(after), Ok(changed)) => kinds_view(final(subst)@) == after && changed,
            (Err(fault), Err(error)) => final(subst)@ == old(subst)@ && error@ == fault,
            _ => false,
        },
{
    if does_occur(kind, id) {
        return Err(Error::Occurs(id, kind.clone()));
    }
    let at: usize = id as usize;
    let ghost before = kinds_view(subst@);
    if at < subst.len() && subst[at].is_none() {
        let mut i: usize = 0;
        while i < subst.len()
            invariant
                i <= subst@.len(),
                at == id,
                subst@.len() == before.len(),
                before == kinds_view(old(subst)@),
                forall|j: int| i <= j < before.len() ==> #[trigger] subst@[j] == old(subst)@[j],
                forall|j: int|
                    0 <= j < i ==> kinds_view(subst@)[j] == #[trigger] kind_bound(
                        before,
                        id,
                        **kind,
                    )[j],
            decreases subst@.len() - i,
        {
            let ghost here = subst@;
            assert(before[i as int] is Some <==> subst@[i as int] is Some);
            if i == at {
                subst.set(i, Some(kind.clone()));
            } else {
                let new = match &subst[i] {
                    Some(bound) => Some(replace_kind(bound, id, kind)),
                    None => None,
                };
                subst.set(i, new);
            }
            proof {
                let bound = kind_bound(before, id, kind_in(*kind));
                assert forall|j: int| 0 <= j < i + 1 implies kinds_view(subst@)[j]
                    == #[trigger] bound[j] by {
                    if j < i {
                        assert(subst@[j] == here[j]);
                        assert(kinds_view(here)[j] == bound[j]);
                    }
                }
            }
            i += 1;
        }
        assert(kinds_view(subst@) =~= kind_bound(before, id, **kind));
        Ok(true)
    } else {
        assert(id < before.len() ==> (before[id as int] is Some <==> subst@[id as int] is Some));
        Err(Error::TypeMismatch(Kind::variable(id), kind.clone()))
    }
}

/// Makes `l` and `r` the same kind, and tells whether a variable was bound.
fn unify_kinds(subst: &mut Vec<Option<ArcKind>>, l: &ArcKind, r: &ArcKind) -> (res: Result<
    bool,
    Error,
>)
    ensures
        match (kinds_unified(kinds_view(old(subst)@), **l, **r), res) {
            (Ok(after), Ok(changed)) => kinds_view(final(subst)@) == after && changed == (unbound(
                after,
            ) < unbound(kinds_view(old(subst)@))),
            (Err(fault), Err(error)) => error@ == fault,
            _ => false,
        },
    decreases unbound(kinds_view(old(subst)@)), **l,
{
    let ghost before = kinds_view(subst@);
    proof {
        unifying_kinds_binds(before, kind_in(*l), kind_in(*r));
    }
    match (&**l, &**r) {
        (Kind::Variable(a), Kind::Variable(b)) => {
            if *a == *b {
                Ok(false)
            } else {
                unify_variable(subst, *a, r)
            }
        },
        (Kind::Variable(a), _) => unify_variable(subst, *a, r),
        (_, Kind::Variable(b)) => unify_variable(subst, *b, l),
        (Kind::Function(la, lr), Kind::Function(ra, rr)) => {
            proof {
                unifying_kinds_binds(before, kind_in(*la), kind_in(*ra));
            }
            match unify_kinds(subst, la, ra) {
                Err(error) => Err(error),
                Ok(true) => {
                    let ghost mid = kinds_view(subst@);
                    let (l2, r2) = (settle_kind(subst, lr), settle_kind(subst, rr));
                    proof {
                        unifying_kinds_binds(mid, kind_in(l2), kind_in(r2));
                    }
                    match unify_kinds(subst, &l2, &r2) {
                        Err(error) => Err(error),
                        Ok(_) => Ok(true),
                    }
                },
                Ok(false) => unify_kinds(subst, lr, rr),
            }
        },
        _ => if l.same(r) {
            Ok(false)
        } else {
            Err(Error::TypeMismatch(l.clone(), r.clone()))
        },
    }
}

/// What is known of kinds so far: what the variables are bound to, and the kinds of the names in
/// scope.
pub struct Kinded {
    pub subst: KindSubst,
    pub names: Seq<GenericTy>,
}

/// A kind and what is known then, or a fault. There is none where the variables run out.
pub type KindStep = Option<Result<(Kinded, Kind), KindFault>>;

/// A variable that was not used before.
pub open spec fn fresh_kind(c: Kinded) -> Option<(Kinded, Kind)> {
    if c.subst.len() < u32::MAX {
        Some(
            (Kinded { subst: c.subst.push(None), ..c }, Kind::Variable(c.subst.len() as u32)),
        )
    } else {
        None
    }
}

/// `kind` holds nothing that is still to be filled in.
pub open spec fn is_given(kind: Kind) -> bool
    decreases kind,
{
    match kind {
        Kind::Type | Kind::Row => true,
        Kind::Function(arg, ret) => is_given(*arg) && is_given(*ret),
        _ => false,
    }
}

/// `kind` where it is given, and else a new variable.
pub open spec fn given_or_fresh(c: Kinded, kind: Kind) -> Option<(Kinded, Kind)> {
    if is_given(kind) {
        Some((c, kind))
    } else {
        fresh_kind(c)
    }
}

/// The first `n` of `params`, each with a kind.
pub open spec fn params_kinded(c: Kinded, params: Seq<GenericTy>, n: nat) -> Option<
    (Kinded, Seq<GenericTy>),
>
    decreases n,
{
    if n == 0 || n > params.len() {
        Some((c, Seq::empty()))
    } else {
        match params_kinded(c, params, (n - 1) as nat) {
            None => None,
            Some((c, before)) => match given_or_fresh(c, *params[n - 1].kind) {
                None => None,
                Some((c, kind)) => Some(
                    (
                        c,
                        before.push(
                            GenericTy { id: params[n - 1].id, kind: std::sync::Arc::new(kind) },
                        ),
                    ),
                ),
            },
        }
    }
}

/// The kind of a constructor with the parameters of `params` from `i` on.
pub open spec fn constructor_kind(params: Seq<GenericTy>, i: nat) -> Kind
    decreases params.len() - i,
{
    if i >= params.len() {
        Kind::Type
    } else {
        Kind::Function(params[i as int].kind, std::sync::Arc::new(constructor_kind(params, i + 1)))
    }
}

pub open spec fn fresh_step(next: Option<(Kinded, Kind)>) -> KindStep {
    match next {
        None => None,
        Some((c, kind)) => Some(Ok((c, kind))),
    }
}

/// The kind of an alias with the parameters `params`.
pub open spec fn alias_kind(c: Kinded, params: Seq<GenericTy>) -> KindStep {
    match params_kinded(c, params, params.len()) {
        None => None,
        Some((c, params)) => Some(Ok((c, constructor_kind(params, 0)))),
    }
}

/// The kind that `name` has in `names`. Later ones hide earlier ones.
pub open spec fn kind_named(names: Seq<GenericTy>, name: Seq<char>) -> Option<Kind>
    decreases names.len(),
{
    if names.len() == 0 {
        None
    } else if names.last().id == name {
        Some(*names.last().kind)
    } else {
        kind_named(names.drop_last(), name)
    }
}

/// The kind that was found has to be `expected`. What it is part of has the kind `whole`.
pub open spec fn kind_agreed(step: KindStep, expected: Kind, whole: Kind) -> KindStep {
    match step {
        Some(Ok((c, actual))) => match kinds_unified(
            c.subst,
            kind_settled(c.subst, expected),
            kind_settled(c.subst, actual),
        ) {
            Ok(subst) => Some(Ok((Kinded { subst, ..c }, whole))),
            Err(fault) => Some(Err(fault)),
        },
        _ => step,
    }
}

pub open spec fn function_kind(arg: Kind, ret: Kind) -> Kind {
    Kind::Function(std::sync::Arc::new(arg), std::sync::Arc::new(ret))
}

/// The kind of a builtin type.
pub open spec fn builtin_kind(builtin: BuiltinType) -> Kind {
    match builtin {
        BuiltinType::Array => function_kind(Kind::Type, Kind::Type),
        BuiltinType::Function => function_kind(
            Kind::Type,
            function_kind(Kind::Type, Kind::Type),
        ),
        _ => Kind::Type,
    }
}

/// The kind of `t`. Functions, the fields of rows and what is quantified have the kind `Type`, and
/// the same parameter has the same kind wherever it is used.
pub open spec fn kinded(infos: Map<Seq<char>, AliasTy>, c: Kinded, t: Ty) -> KindStep
    decreases t, 0nat,
{
    match t {
        Ty::Builtin(builtin) => Some(Ok((c, builtin_kind(builtin)))),
        Ty::Generic(param) => match kind_named(c.names, param.id) {
            Some(kind) => Some(Ok((c, kind))),
            None => match fresh_kind(c) {
                None => None,
                Some((c, kind)) => {
                    let named = GenericTy { id: param.id, kind: std::sync::Arc::new(kind) };
                    Some(Ok((Kinded { names: c.names.push(named), ..c }, kind)))
                },
            },
        },
        Ty::Ident(id) => match kind_named(c.names, id) {
            Some(kind) => Some(Ok((c, kind))),
            None => if infos.dom().contains(id) {
                alias_kind(c, infos[id].data().params)
            } else {
                fresh_step(fresh_kind(c))
            },
        },
        Ty::Alias(alias) => alias_kind(c, alias.data().params),
        Ty::Forall(params, x) => match params_kinded(c, params, params.len()) {
            None => None,
            Some((inner, named)) => match kind_agreed(
                kinded(infos, Kinded { names: inner.names + named, ..inner }, *x),
                Kind::Type,
                Kind::Type,
            ) {
                Some(Ok((after, kind))) => Some(Ok((Kinded { names: c.names, ..after }, kind))),
                other => other,
            },
        },
        Ty::App(f, args) => match kinded(infos, c, *f) {
            Some(Ok((c, kind))) => args_kinded(infos, c, kind, args, args.len()),
            other => other,
        },
        Ty::Function(_, arg, ret) => match kind_agreed(
            kinded(infos, c, *arg),
            Kind::Type,
            Kind::Type,
        ) {
            Some(Ok((c, _))) => kind_agreed(kinded(infos, c, *ret), Kind::Type, Kind::Type),
            other => other,
        },
        Ty::Record(row) => kind_agreed(kinded(infos, c, *row), Kind::Row, Kind::Type),
        Ty::Variant(row) => kind_agreed(kinded(infos, c, *row), Kind::Row, Kind::Type),
        Ty::Effect(row) => kind_agreed(
            kinded(infos, c, *row),
            Kind::Row,
            function_kind(Kind::Type, Kind::Type),
        ),
        Ty::EmptyRow => Some(Ok((c, Kind::Row))),
        Ty::ExtendRow(fields, rest) => match fields_kinded(infos, c, fields, fields.len()) {
            Some(Ok((c, _))) => kind_agreed(kinded(infos, c, *rest), Kind::Row, Kind::Row),
            other => other,
        },
        Ty::ExtendTypeRow(_, rest) => kind_agreed(kinded(infos, c, *rest), Kind::Row, Kind::Row),
        _ => fresh_step(fresh_kind(c)),
    }
}

/// The kind of what has the kind `kind`, applied to the first `n` of `args`.
pub open spec fn args_kinded(
    infos: Map<Seq<char>, AliasTy>,
    c: Kinded,
    kind: Kind,
    args: Seq<Ty>,
    n: nat,
) -> KindStep
    decreases args, n,
{
    if n == 0 || n > args.len() {
        Some(Ok((c, kind)))
    } else {
        match args_kinded(infos, c, kind, args, (n - 1) as nat) {
            Some(Ok((c, f))) => match fresh_kind(c) {
                None => None,
                Some((c, arg)) => match fresh_kind(c) {
                    None => None,
                    Some((c, ret)) => match kind_agreed(
                        Some(Ok((c, f))),
                        function_kind(arg, ret),
                        ret,
                    ) {
                        Some(Ok((c, ret))) => kind_agreed(kinded(infos, c, args[n - 1]), arg, ret),
                        other => other,
                    },
                },
            },
            other => other,
        }
    }
}

/// The types of the first `n` fields have the kind `Type`.
pub open spec fn fields_kinded(
    infos: Map<Seq<char>, AliasTy>,
    c: Kinded,
    fields: Seq<FieldTy>,
    n: nat,
) -> KindStep
    decreases fields, n,
{
    if n == 0 || n > fields.len() {
        Some(Ok((c, Kind::Type)))
    } else {
        match fields_kinded(infos, c, fields, (n - 1) as nat) {
            Some(Ok((c, _))) => kind_agreed(
                kinded(infos, c, fields[n - 1].typ),
                Kind::Type,
                Kind::Type,
            ),
            other => other,
        }
    }
}

/// What is known of kinds at first.
pub open spec fn nothing_kinded() -> Kinded {
    Kinded { subst: Seq::empty(), names: Seq::empty() }
}

/// The type `t`, which is declared for a value, has the kind `Type`.
pub open spec fn value_kinded(infos: Map<Seq<char>, AliasTy>, t: Ty) -> KindStep {
    kind_agreed(kinded(infos, nothing_kinded(), t), Kind::Type, Kind::Type)
}

struct KindCheck {
    subst: Vec<Option<ArcKind>>,
    names: Vec<Generic>,
}

impl View for KindCheck {
    type V = Kinded;

    closed spec fn view(&self) -> Kinded {
        Kinded { subst: kinds_view(self.subst@), names: generics_view(self.names@) }
    }
}

spec fn kind_step_is(step: KindStep, res: Result<ArcKind, Error>, after: Kinded) -> bool {
    match (step, res) {
        (Some(Ok((c, kind))), Ok(actual)) => after == c && *actual == kind,
        (Some(Err(fault)), Err(error)) => error@ == fault,
        _ => false,
    }
}

fn has_kind(kind: &Kind) -> (res: bool)
    ensures
        res == is_given(*kind),
    decreases *kind,
{
    match kind {
        Kind::Type | Kind::Row => true,
        Kind::Function(arg, ret) => has_kind(arg) && has_kind(ret),
        _ => false,
    }
}

fn kind_of_constructor(params: &Vec<Generic>) -> (res: ArcKind)
    ensures
        *res == constructor_kind(generics_view(params@), 0),
{
    let mut res = Kind::typ();
    let mut i: usize = params.len();
    while i > 0
        invariant
            i <= params@.len(),
            *res == constructor_kind(generics_view(params@), i as nat),
        decreases i,
    {
        i -= 1;
        res = Kind::function(params[i].kind.clone(), res);
    }
    res
}

fn kind_of_builtin(builtin: &BuiltinType) -> (res: ArcKind)
    ensures
        *res == builtin_kind(*builtin),
{
    match builtin {
        BuiltinType::Array => Kind::function(Kind::typ(), Kind::typ()),
        BuiltinType::Function => {
            Kind::function(Kind::typ(), Kind::function(Kind::typ(), Kind::typ()))
        },
        _ => Kind::typ(),
    }
}

impl KindCheck {
    fn new() -> (res: KindCheck)
        ensures
            res@ == nothing_kinded(),
    {
        let res = KindCheck { subst: Vec::new(), names: Vec::new() };
        assert(res@.subst =~= nothing_kinded().subst);
        assert(res@.names =~= nothing_kinded().names);
        res
    }

    fn new_var(&mut self) -> (res: ArcKind)
        requires
            fresh_kind(old(self)@) is Some,
        ensures
            fresh_kind(old(self)@) == Some((final(self)@, *res)),
    {
        let id: u32 = self.subst.len() as u32;
        self.subst.push(None);
        assert(self@.subst =~= old(self)@.subst.push(None));
        Kind::variable(id)
    }

    fn kind_or_var(&mut self, kind: &ArcKind) -> (res: ArcKind)
        requires
            given_or_fresh(old(self)@, **kind) is Some,
        ensures
            given_or_fresh(old(self)@, **kind) == Some((final(self)@, *res)),
    {
        if has_kind(kind) {
            kind.clone()
        } else {
            self.new_var()
        }
    }

    fn new_params(&mut self, params: &Vec<Generic>) -> (res: Vec<Generic>)
        requires
            params_kinded(old(self)@, generics_view(params@), params@.len()) is Some,
        ensures
            params_kinded(old(self)@, generics_view(params@), params@.len()) == Some(
                (final(self)@, generics_view(res@)),
            ),
    {
        let ghost all = generics_view(params@);
        let mut res: Vec<Generic> = Vec::new();
        let mut i: usize = 0;
        assert(generics_view(res@) =~= Seq::<GenericTy>::empty());
        while i < params.len()
            invariant
                i <= params@.len(),
                all == generics_view(params@),
                params_kinded(old(self)@, all, all.len()) is Some,
                params_kinded(old(self)@, all, i as nat) == Some((self@, generics_view(res@))),
            decreases params@.len() - i,
        {
            proof {
                params_kinded_before(old(self)@, all, i as nat + 1);
            }
            let kind = self.kind_or_var(&params[i].kind);
            let ghost before = res@;
            res.push(Generic { id: params[i].id.clone(), kind });
            assert(generics_view(res@) =~= generics_view(before).push(res@.last()@));
            i += 1;
        }
        res
    }

    fn find_kind(&self, name: &Symbol) -> (res: Option<ArcKind>)
        ensures
            match res {
                Some(kind) => kind_named(self@.names, name@) == Some(*kind),
                None => kind_named(self@.names, name@) is None,
            },
    {
        let ghost all = self@.names;
        let mut i: usize = self.names.len();
        assert(all.take(i as int) =~= all);
        while i > 0
            invariant
                i <= self.names@.len(),
                all == generics_view(self.names@),
                kind_named(all, name@) == kind_named(all.take(i as int), name@),
            decreases i,
        {
            assert(all.take(i as int).drop_last() =~= all.take(i - 1));
            i -= 1;
            if self.names[i].id == *name {
                return Some(self.names[i].kind.clone());
            }
        }
        None
    }

    fn push_name(&mut self, id: Symbol, kind: ArcKind)
        ensures
            final(self)@ == (Kinded {
                names: old(self)@.names.push(GenericTy { id: id@, kind }),
                ..old(self)@
            }),
    {
        self.names.push(Generic { id, kind });
        assert(self@.names =~= old(self)@.names.push(GenericTy { id: id@, kind }));
    }

    fn push_names(&mut self, params: &Vec<Generic>)
        ensures
            final(self)@ == (Kinded {
                names: old(self)@.names + generics_view(params@),
                ..old(self)@
            }),
    {
        let ghost all = generics_view(params@);
        let mut i: usize = 0;
        assert(self@.names =~= old(self)@.names + all.take(0));
        while i < params.len()
            invariant
                i <= params@.len(),
                all == generics_view(params@),
                self@ == (Kinded { names: old(self)@.names + all.take(i as int), ..old(self)@ }),
            decreases params@.len() - i,
        {
            self.push_name(params[i].id.clone(), params[i].kind.clone());
            i += 1;
            assert(self@.names =~= old(self)@.names + all.take(i as int));
        }
        assert(all.take(i as int) =~= all);
    }

    fn forget_names(&mut self, count: usize)
        requires
            count <= old(self)@.names.len(),
        ensures
            final(self)@ == (Kinded {
                names: old(self)@.names.take(count as int),
                ..old(self)@
            }),
    {
        self.names.truncate(count);
        assert(self@.names =~= old(self)@.names.take(count as int));
    }

    fn agree(&mut self, expected: &ArcKind, actual: &ArcKind, whole: ArcKind) -> (res: Result<
        ArcKind,
        Error,
    >)
        ensures
            kind_step_is(
                kind_agreed(Some(Ok((old(self)@, **actual))), **expected, *whole),
                res,
                final(self)@,
            ),
    {
        let expected = settle_kind(&self.subst, expected);
        let actual = settle_kind(&self.subst, actual);
        match unify_kinds(&mut self.subst, &expected, &actual) {
            Ok(_) => Ok(whole),
            Err(error) => Err(error),
        }
    }
}

proof fn new_params_keep_names(c: Kinded, params: Seq<GenericTy>, n: nat)
    ensures
        params_kinded(c, params, n) matches Some((after, _)) ==> after.names == c.names,
    decreases n,
{
    if n > 0 && n <= params.len() {
        new_params_keep_names(c, params, (n - 1) as nat);
    }
}

/// `after` has the names that `before` has, and maybe more.
pub open spec fn names_kept(before: Kinded, after: Kinded) -> bool {
    before.names.is_prefix_of(after.names)
}

/// Finding a kind forgets no name.
pub proof fn names_stay(infos: Map<Seq<char>, AliasTy>, c: Kinded, t: Ty)
    ensures
        kinded(infos, c, t) matches Some(Ok((after, _))) ==> names_kept(c, after),
    decreases t, 0nat,
{
    parts_decrease(t);
    match t {
        Ty::Ident(id) => {
            let params = infos[id].data().params;
            new_params_keep_names(c, params, params.len());
        },
        Ty::Alias(alias) => {
            let params = alias.data().params;
            new_params_keep_names(c, params, params.len());
        },
        Ty::App(f, args) => {
            names_stay(infos, c, *f);
            if let Some(Ok((c, kind))) = kinded(infos, c, *f) {
                names_stay_in_args(infos, c, kind, args, args.len());
            }
        },
        Ty::Function(_, arg, ret) => {
            names_stay(infos, c, *arg);
            if let Some(Ok((c, _))) = kind_agreed(
                kinded(infos, c, *arg),
                Kind::Type,
                Kind::Type,
            ) {
                names_stay(infos, c, *ret);
            }
        },
        Ty::Record(row) => names_stay(infos, c, *row),
        Ty::Variant(row) => names_stay(infos, c, *row),
        Ty::Effect(row) => names_stay(infos, c, *row),
        Ty::ExtendRow(fields, rest) => {
            names_stay_in_fields(infos, c, fields, fields.len());
            if let Some(Ok((c, _))) = fields_kinded(infos, c, fields, fields.len()) {
                names_stay(infos, c, *rest);
            }
        },
        Ty::ExtendTypeRow(_, rest) => names_stay(infos, c, *rest),
        _ => {},
    }
}

proof fn names_stay_in_args(
    infos: Map<Seq<char>, AliasTy>,
    c: Kinded,
    kind: Kind,
    args: Seq<Ty>,
    n: nat,
)
    ensures
        args_kinded(infos, c, kind, args, n) matches Some(Ok((after, _))) ==> names_kept(c, after),
    decreases args, n,
{
    if n > 0 && n <= args.len() {
        names_stay_in_args(infos, c, kind, args, (n - 1) as nat);
        if let Some(Ok((before, f))) = args_kinded(infos, c, kind, args, (n - 1) as nat) {
            if let Some((c, arg)) = fresh_kind(before) {
                if let Some((c, ret)) = fresh_kind(c) {
                    if let Some(Ok((c, _))) = kind_agreed(
                        Some(Ok((c, f))),
                        function_kind(arg, ret),
                        ret,
                    ) {
                        names_stay(infos, c, args[n - 1]);
                    }
                }
            }
        }
    }
}

proof fn names_stay_in_fields(
    infos: Map<Seq<char>, AliasTy>,
    c: Kinded,
    fields: Seq<FieldTy>,
    n: nat,
)
    ensures
        fields_kinded(infos, c, fields, n) matches Some(Ok((after, _))) ==> names_kept(c, after),
    decreases fields, n,
{
    if n > 0 && n <= fields.len() {
        names_stay_in_fields(infos, c, fields, (n - 1) as nat);
        if let Some(Ok((c, _))) = fields_kinded(infos, c, fields, (n - 1) as nat) {
            names_stay(infos, c, fields[n - 1].typ);
        }
    }
}

proof fn params_kinded_before(c: Kinded, params: Seq<GenericTy>, n: nat)
    requires
        params_kinded(c, params, params.len()) is Some,
        n <= params.len(),
    ensures
        params_kinded(c, params, n) is Some,
    decreases params.len() - n,
{
    if n < params.len() {
        params_kinded_before(c, params, n + 1);
    }
}

/// Brings the first `n` types that are declared into scope, and gives their parameters kinds.
pub open spec fn bindings_named(
    module: Seq<char>,
    c: Kinded,
    bindings: Seq<TypeBinding>,
    n: nat,
) -> Option<(Kinded, Seq<Seq<GenericTy>>)>
    decreases n,
{
    if n == 0 || n > bindings.len() {
        Some((c, Seq::empty()))
    } else {
        match bindings_named(module, c, bindings, (n - 1) as nat) {
            None => None,
            Some((c, before)) => {
                let params = bindings[n - 1].alias.value@.params;
                match params_kinded(c, params, params.len()) {
                    None => None,
                    Some((c, params)) => {
                        let named = GenericTy {
                            id: scoped_name(module, bindings[n - 1].name.value@),
                            kind: std::sync::Arc::new(constructor_kind(params, 0)),
                        };
                        Some((Kinded { names: c.names.push(named), ..c }, before.push(params)))
                    },
                }
            },
        }
    }
}

/// The first `n` types that are declared, each with its parameters in scope, have the kind `Type`.
pub open spec fn bindings_kinded(
    infos: Map<Seq<char>, AliasTy>,
    renames: Renames,
    c: Kinded,
    params: Seq<Seq<GenericTy>>,
    bindings: Seq<TypeBinding>,
    n: nat,
) -> KindStep
    decreases n,
{
    if n == 0 || n > bindings.len() {
        Some(Ok((c, Kind::Type)))
    } else {
        match bindings_kinded(infos, renames, c, params, bindings, (n - 1) as nat) {
            Some(Ok((before, _))) => match kind_agreed(
                kinded(
                    infos,
                    Kinded { names: before.names + params[n - 1], ..before },
                    refreshed(renames, bindings[n - 1].alias.value@.typ),
                ),
                Kind::Type,
                Kind::Type,
            ) {
                Some(Ok((after, kind))) => Some(
                    Ok((Kinded { names: before.names, ..after }, kind)),
                ),
                other => other,
            },
            other => other,
        }
    }
}

/// `kind`, of which nothing is left open: a variable that nothing was found of is the kind `Type`.
pub open spec fn kind_closed(kind: Kind) -> Kind
    decreases kind,
{
    match kind {
        Kind::Variable(_) => Kind::Type,
        Kind::Function(arg, ret) => function_kind(kind_closed(*arg), kind_closed(*ret)),
        _ => kind,
    }
}

/// `params` with the kinds that were found for them.
pub open spec fn params_closed(subst: KindSubst, params: Seq<GenericTy>) -> Seq<GenericTy> {
    params.map_values(
        |param: GenericTy|
            GenericTy {
                id: param.id,
                kind: std::sync::Arc::new(kind_closed(kind_settled(subst, *param.kind))),
            },
    )
}

/// The parameters of the types that are declared together, with their kinds.
pub open spec fn types_kinded(known: Known, s: Inferred, bindings: Seq<TypeBinding>) -> Option<
    Result<Seq<Seq<GenericTy>>, KindFault>,
> {
    match bindings_named(known.module, nothing_kinded(), bindings, bindings.len()) {
        None => None,
        Some((c, params)) => match bindings_kinded(
            s.infos(known),
            s.renames,
            c,
            params,
            bindings,
            bindings.len(),
        ) {
            None => None,
            Some(Err(fault)) => Some(Err(fault)),
            Some(Ok((c, _))) => Some(
                Ok(params.map_values(|params: Seq<GenericTy>| params_closed(c.subst, params))),
            ),
        },
    }
}

/// The parameters of the types that are declared together: with their kinds, or as they are given
/// where those do not agree.
pub open spec fn params_in_scope(known: Known, s: Inferred, bindings: Seq<TypeBinding>) -> Option<
    Seq<Seq<GenericTy>>,
> {
    match types_kinded(known, s, bindings) {
        None => None,
        Some(Ok(params)) => Some(params),
        Some(Err(_)) => Some(
            bindings.map_values(|binding: TypeBinding| binding.alias.value@.params),
        ),
    }
}

pub open spec fn groups_view(groups: Seq<Vec<Generic>>) -> Seq<Seq<GenericTy>> {
    groups.map_values(|group: Vec<Generic>| generics_view(group@))
}

fn close_kind(kind: &ArcKind) -> (res: ArcKind)
    ensures
        *res == kind_closed(**kind),
    decreases **kind,
{
    match &**kind {
        Kind::Variable(_) => Kind::typ(),
        Kind::Function(arg, ret) => {
            let arg = close_kind(arg);
            Kind::function(arg, close_kind(ret))
        },
        _ => kind.clone(),
    }
}

fn close_params(subst: &Vec<Option<ArcKind>>, params: &Vec<Generic>) -> (res: Vec<Generic>)
    ensures
        generics_view(res@) == params_closed(kinds_view(subst@), generics_view(params@)),
{
    let ghost closed = params_closed(kinds_view(subst@), generics_view(params@));
    let mut res: Vec<Generic> = Vec::new();
    let mut i: usize = 0;
    while i < params.len()
        invariant
            i <= params@.len(),
            res@.len() == i,
            closed == params_closed(kinds_view(subst@), generics_view(params@)),
            forall|j: int| 0 <= j < i ==> (#[trigger] res@[j])@ == closed[j],
        decreases params@.len() - i,
    {
        let kind = close_kind(&settle_kind(subst, &params[i].kind));
        res.push(Generic { id: params[i].id.clone(), kind });
        i += 1;
    }
    assert(generics_view(res@) =~= closed);
    res
}

proof fn bindings_named_before(module: Seq<char>, c: Kinded, bindings: Seq<TypeBinding>, n: nat)
    requires
        bindings_named(module, c, bindings, bindings.len()) is Some,
        n <= bindings.len(),
    ensures
        bindings_named(module, c, bindings, n) is Some,
    decreases bindings.len() - n,
{
    if n < bindings.len() {
        bindings_named_before(module, c, bindings, n + 1);
    }
}

pub proof fn bindings_named_len(module: Seq<char>, c: Kinded, bindings: Seq<TypeBinding>, n: nat)
    requires
        n <= bindings.len(),
    ensures
        bindings_named(module, c, bindings, n) matches Some((_, params)) ==> params.len() == n,
    decreases n,
{
    if n > 0 {
        bindings_named_len(module, c, bindings, (n - 1) as nat);
    }
}

impl<'a, E: TypeEnv> Typecheck<'a, E> {
    fn kind_of(&self, check: &mut KindCheck, typ: &ArcType) -> (res: Result<ArcKind, Error>)
        requires
            kinded(self@.infos(self.known()), old(check)@, typ@) is Some,
        ensures
            kind_step_is(
                kinded(self@.infos(self.known()), old(check)@, typ@),
                res,
                final(check)@,
            ),
        decreases typ@, 0nat,
    {
        proof {
            parts_decrease(typ@);
        }
        match typ.as_type() {
            Type::Builtin(builtin) => Ok(kind_of_builtin(builtin)),
            Type::Generic(param) => match check.find_kind(&param.id) {
                Some(kind) => Ok(kind),
                None => {
                    let kind = check.new_var();
                    check.push_name(param.id.clone(), kind.clone());
                    Ok(kind)
                },
            },
            Type::Ident(id) => match check.find_kind(id) {
                Some(kind) => Ok(kind),
                None => match self.find_type_info(id) {
                    Some(alias) => {
                        let params = check.new_params(alias.data().params());
                        Ok(kind_of_constructor(&params))
                    },
                    None => Ok(check.new_var()),
                },
            },
            Type::Alias(alias) => {
                let params = check.new_params(alias.data().params());
                Ok(kind_of_constructor(&params))
            },
            Type::Forall(params, x) => {
                let count: usize = check.names.len();
                let ghost before = check@;
                let params = check.new_params(params);
                let ghost inner = check@;
                check.push_names(&params);
                proof {
                    new_params_keep_names(
                        before,
                        (typ@)->Forall_0,
                        (typ@)->Forall_0.len(),
                    );
                    assert(inner.names == before.names);
                }
                let res = self.kind_of_type(check, x);
                if res.is_ok() {
                    proof {
                        names_stay(
                            self@.infos(self.known()),
                            Kinded { names: inner.names + generics_view(params@), ..inner },
                            x@,
                        );
                    }
                    check.forget_names(count);
                    assert(check@.names =~= before.names);
                }
                res
            },
            Type::App(f, args) => match self.kind_of(check, f) {
                Ok(kind) => self.kind_of_args(check, kind, args, args.len()),
                Err(error) => Err(error),
            },
            Type::Function(_, arg, ret) => match self.kind_of_type(check, arg) {
                Ok(_) => self.kind_of_type(check, ret),
                Err(error) => Err(error),
            },
            Type::Record(row) | Type::Variant(row) => match self.kind_of(check, row) {
                Ok(kind) => check.agree(&Kind::row(), &kind, Kind::typ()),
                Err(error) => Err(error),
            },
            Type::Effect(row) => match self.kind_of(check, row) {
                Ok(kind) => {
                    check.agree(&Kind::row(), &kind, Kind::function(Kind::typ(), Kind::typ()))
                },
                Err(error) => Err(error),
            },
            Type::EmptyRow => Ok(Kind::row()),
            Type::ExtendRow { fields, rest } => match self.kind_of_fields(
                check,
                fields,
                fields.len(),
            ) {
                Ok(_) => match self.kind_of(check, rest) {
                    Ok(kind) => check.agree(&Kind::row(), &kind, Kind::row()),
                    Err(error) => Err(error),
                },
                Err(error) => Err(error),
            },
            Type::ExtendTypeRow { types: _, rest } => match self.kind_of(check, rest) {
                Ok(kind) => check.agree(&Kind::row(), &kind, Kind::row()),
                Err(error) => Err(error),
            },
            _ => Ok(check.new_var()),
        }
    }

    fn kind_of_type(&self, check: &mut KindCheck, typ: &ArcType) -> (res: Result<ArcKind, Error>)
        requires
            kinded(self@.infos(self.known()), old(check)@, typ@) is Some,
        ensures
            kind_step_is(
                kind_agreed(
                    kinded(self@.infos(self.known()), old(check)@, typ@),
                    Kind::Type,
                    Kind::Type,
                ),
                res,
                final(check)@,
            ),
        decreases typ@, 1nat,
    {
        match self.kind_of(check, typ) {
            Ok(kind) => check.agree(&Kind::typ(), &kind, Kind::typ()),
            Err(error) => Err(error),
        }
    }

    fn kind_of_args(
        &self,
        check: &mut KindCheck,
        kind: ArcKind,
        args: &Vec<ArcType>,
        n: usize,
    ) -> (res: Result<ArcKind, Error>)
        requires
            n <= args@.len(),
            args_kinded(
                self@.infos(self.known()),
                old(check)@,
                *kind,
                types_view(args@),
                n as nat,
            ) is Some,
        ensures
            kind_step_is(
                args_kinded(
                    self@.infos(self.known()),
                    old(check)@,
                    *kind,
                    types_view(args@),
                    n as nat,
                ),
                res,
                final(check)@,
            ),
        decreases types_view(args@), n,
    {
        let ghost all = types_view(args@);
        if n == 0 {
            return Ok(kind);
        }
        assert(decreases_to!(all => all[n - 1]));
        match self.kind_of_args(check, kind, args, n - 1) {
            Ok(f) => {
                let arg = check.new_var();
                let ret = check.new_var();
                match check.agree(&Kind::function(arg.clone(), ret.clone()), &f, ret) {
                    Ok(ret) => match self.kind_of(check, &args[n - 1]) {
                        Ok(actual) => check.agree(&arg, &actual, ret),
                        Err(error) => Err(error),
                    },
                    Err(error) => Err(error),
                }
            },
            Err(error) => Err(error),
        }
    }

    fn kind_of_fields(&self, check: &mut KindCheck, fields: &Vec<Field>, n: usize) -> (res: Result<
        ArcKind,
        Error,
    >)
        requires
            n <= fields@.len(),
            fields_kinded(
                self@.infos(self.known()),
                old(check)@,
                fields_view(fields@),
                n as nat,
            ) is Some,
        ensures
            kind_step_is(
                fields_kinded(
                    self@.infos(self.known()),
                    old(check)@,
                    fields_view(fields@),
                    n as nat,
                ),
                res,
                final(check)@,
            ),
        decreases fields_view(fields@), n,
    {
        let ghost all = fields_view(fields@);
        if n == 0 {
            return Ok(Kind::typ());
        }
        assert(decreases_to!(all => all[n - 1]));
        assert(decreases_to!(all[n - 1] => all[n - 1].typ));
        match self.kind_of_fields(check, fields, n - 1) {
            Ok(_) => self.kind_of_type(check, &fields[n - 1].typ),
            Err(error) => Err(error),
        }
    }

    /// Checks that `typ`, which is declared for a value, has the kind `Type`.
    pub(crate) fn kindcheck(&self, typ: &ArcType) -> (res: Result<(), Error>)
        requires
            value_kinded(self@.infos(self.known()), typ@) is Some,
        ensures
            match (value_kinded(self@.infos(self.known()), typ@), res) {
                (Some(Ok(_)), Ok(())) => true,
                (Some(Err(fault)), Err(error)) => error@ == fault,
                _ => false,
            },
    {
        let mut check = KindCheck::new();
        match self.kind_of_type(&mut check, typ) {
            Ok(_) => Ok(()),
            Err(error) => Err(error),
        }
    }

    fn name_bindings(&self, check: &mut KindCheck, bindings: &Vec<TypeBinding>) -> (res: Vec<
        Vec<Generic>,
    >)
        requires
            bindings_named(
                self.known().module,
                old(check)@,
                bindings@,
                bindings@.len(),
            ) is Some,
        ensures
            bindings_named(self.known().module, old(check)@, bindings@, bindings@.len()) == Some(
                (final(check)@, groups_view(res@)),
            ),
    {
        let ghost module = self.known().module;
        let ghost start = check@;
        let mut res: Vec<Vec<Generic>> = Vec::new();
        let mut i: usize = 0;
        assert(groups_view(res@) =~= Seq::<Seq<GenericTy>>::empty());
        while i < bindings.len()
            invariant
                i <= bindings@.len(),
                module == self.known().module,
                bindings_named(module, start, bindings@, bindings@.len()) is Some,
                bindings_named(module, start, bindings@, i as nat) == Some(
                    (check@, groups_view(res@)),
                ),
            decreases bindings@.len() - i,
        {
            proof {
                bindings_named_before(module, start, bindings@, i as nat + 1);
            }
            let params = check.new_params(bindings[i].alias.value.params());
            let kind = kind_of_constructor(&params);
            check.push_name(self.scoped_symbol(&bindings[i].name.value), kind);
            let ghost before = res@;
            res.push(params);
            assert(groups_view(res@) =~= groups_view(before).push(generics_view(params@)));
            i += 1;
        }
        res
    }

    fn kind_of_bindings(
        &self,
        check: &mut KindCheck,
        params: &Vec<Vec<Generic>>,
        bindings: &Vec<TypeBinding>,
        n: usize,
    ) -> (res: Result<ArcKind, Error>)
        requires
            n <= bindings@.len() == params@.len(),
            bindings_kinded(
                self@.infos(self.known()),
                self@.renames,
                old(check)@,
                groups_view(params@),
                bindings@,
                n as nat,
            ) is Some,
        ensures
            kind_step_is(
                bindings_kinded(
                    self@.infos(self.known()),
                    self@.renames,
                    old(check)@,
                    groups_view(params@),
                    bindings@,
                    n as nat,
                ),
                res,
                final(check)@,
            ),
        decreases n,
    {
        if n == 0 {
            return Ok(Kind::typ());
        }
        match self.kind_of_bindings(check, params, bindings, n - 1) {
            Ok(_) => {
                let count: usize = check.names.len();
                let ghost before = check@;
                check.push_names(&params[n - 1]);
                let ghost inner = check@;
                assert(groups_view(params@)[n - 1] == generics_view(params@[n - 1]@));
                let typ = self.refresh(bindings[n - 1].alias.value.unresolved_type());
                let res = self.kind_of_type(check, &typ);
                if res.is_ok() {
                    proof {
                        names_stay(self@.infos(self.known()), inner, typ@);
                    }
                    check.forget_names(count);
                    assert(check@.names =~= before.names);
                }
                res
            },
            Err(error) => Err(error),
        }
    }

    /// The parameters of the types that are declared in `bindings`.
    pub(crate) fn scope_params(&self, bindings: &Vec<TypeBinding>) -> (res: Vec<Vec<Generic>>)
        requires
            params_in_scope(self.known(), self@, bindings@) is Some,
        ensures
            params_in_scope(self.known(), self@, bindings@) == Some(groups_view(res@)),
            res@.len() == bindings@.len(),
    {
        match self.kindcheck_types(bindings) {
            Ok(params) => params,
            Err(_) => {
                let mut res: Vec<Vec<Generic>> = Vec::new();
                let mut i: usize = 0;
                while i < bindings.len()
                    invariant
                        i <= bindings@.len(),
                        res@.len() == i,
                        forall|j: int|
                            0 <= j < i ==> generics_view((#[trigger] res@[j])@)
                                == bindings@[j].alias.value@.params,
                    decreases bindings@.len() - i,
                {
                    res.push(crate::types::clone_generics(bindings[i].alias.value.params()));
                    i += 1;
                }
                assert(groups_view(res@) =~= bindings@.map_values(
                    |binding: TypeBinding| binding.alias.value@.params,
                ));
                res
            },
        }
    }

    /// The parameters of the types that are declared in `bindings`, with their kinds.
    pub(crate) fn kindcheck_types(&self, bindings: &Vec<TypeBinding>) -> (res: Result<
        Vec<Vec<Generic>>,
        Error,
    >)
        requires
            types_kinded(self.known(), self@, bindings@) is Some,
        ensures
            match (types_kinded(self.known(), self@, bindings@), res) {
                (Some(Ok(params)), Ok(res)) => groups_view(res@) == params && res@.len()
                    == bindings@.len(),
                (Some(Err(fault)), Err(error)) => error@ == fault,
                _ => false,
            },
    {
        let mut check = KindCheck::new();
        let params = self.name_bindings(&mut check, bindings);
        proof {
            bindings_named_len(
                self.known().module,
                nothing_kinded(),
                bindings@,
                bindings@.len(),
            );
        }
        match self.kind_of_bindings(&mut check, &params, bindings, bindings.len()) {
            Ok(_) => {
                let ghost subst = check@.subst;
                let mut res: Vec<Vec<Generic>> = Vec::new();
                let mut i: usize = 0;
                while i < params.len()
                    invariant
                        i <= params@.len(),
                        res@.len() == i,
                        subst == kinds_view(check.subst@),
                        forall|j: int|
                            0 <= j < i ==> generics_view((#[trigger] res@[j])@) == params_closed(
                                subst,
                                generics_view(params@[j]@),
                            ),
                    decreases params@.len() - i,
                {
                    res.push(close_params(&check.subst, &params[i]));
                    i += 1;
                }
                assert(groups_view(res@) =~= groups_view(params@).map_values(
                    |params: Seq<GenericTy>| params_closed(subst, params),
                ));
                Ok(res)
            },
            Err(error) => Err(error),
        }
    }
}

} // verus!
