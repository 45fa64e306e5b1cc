//! The implicit arguments in an expression.

use vstd::prelude::*;
use crate::ast::{Alternative, Expr, ExprField, SpannedExpr, ValueBinding};
use crate::implicits::error::Error;
use crate::implicits::resolve::{found, is_tried, resolve_implicit, stands_for, Failure, Trial};
use crate::implicits::search::trouble;
use crate::implicits::store::types_in;
use crate::pos::{Span, Spanned};
use crate::symbol::Symbol;

verus! {

/// Identifiers that stand for implicit arguments, each with the trials for its type.
pub type Trials = Seq<(Symbol, Trial)>;

/// What was tried for the identifier `name`, from `i` on.
pub open spec fn trial_for(trials: Trials, name: Seq<char>, i: int) -> Option<Trial>
    decreases trials.len() - i,
{
    if i < 0 || i >= trials.len() {
        None
    } else if trials[i].0@ == name {
        Some(trials[i].1)
    } else {
        trial_for(trials, name, i + 1)
    }
}

/// `b` is `a` with the implicit arguments that were found in the places of the identifiers that
/// stand for them. The values that are bound in `a` itself, and the identifier that follows them,
/// stay as they are.
pub open spec fn resolved_as(trials: Trials, a: SpannedExpr, b: SpannedExpr) -> bool
    decreases a, 1nat,
{
    match a.value {
        Expr::Ident(id) => match trial_for(trials, id.name@, 0) {
            None => b == a,
            Some(trial) => match found(Seq::empty(), trial) {
                Ok(found) => stands_for(b, a.span, found),
                Err(_) => b == a,
            },
        },
        Expr::LetBindings(binds, body) => b.span == a.span && (b.value matches Expr::LetBindings(
            binds2,
            body2,
        ) && binds2 == binds && parts_resolved_as(trials, *body, *body2)),
        _ => parts_resolved_as(trials, a, b),
    }
}

/// `b` is `a` with the implicit arguments that were found in its parts.
pub open spec fn parts_resolved_as(trials: Trials, a: SpannedExpr, b: SpannedExpr) -> bool
    decreases a, 0nat,
{
    b.span == a.span && match (a.value, b.value) {
        (Expr::App(f, x), Expr::App(g, y)) => resolved_as(trials, *f, *g) && x@.len() == y@.len()
            && forall|i: int|
            0 <= i < x@.len() ==> resolved_as(trials, x@[i], #[trigger] y@[i]),
        (Expr::Lambda(l), Expr::Lambda(m)) => l.id == m.id && l.args == m.args && resolved_as(
            trials,
            *l.body,
            *m.body,
        ),
        (Expr::IfElse(p, t, e), Expr::IfElse(q, u, f)) => resolved_as(trials, *p, *q)
            && resolved_as(trials, *t, *u) && resolved_as(trials, *e, *f),
        (Expr::Match(v, x), Expr::Match(w, y)) => resolved_as(trials, *v, *w) && x@.len()
            == y@.len() && forall|i: int|
            0 <= i < x@.len() ==> x@[i].pattern == (#[trigger] y@[i]).pattern && resolved_as(
                trials,
                x@[i].expr,
                y@[i].expr,
            ),
        (Expr::Infix(l, op, r), Expr::Infix(m, op2, s)) => op == op2 && resolved_as(trials, *l, *m)
            && resolved_as(trials, *r, *s),
        (Expr::Projection(v, field, typ), Expr::Projection(w, field2, typ2)) => field == field2
            && typ == typ2 && resolved_as(trials, *v, *w),
        (Expr::Array(typ, x), Expr::Array(typ2, y)) => typ == typ2 && x@.len() == y@.len()
            && forall|i: int|
            0 <= i < x@.len() ==> resolved_as(trials, x@[i], #[trigger] y@[i]),
        (
            Expr::Record { typ, types, exprs: x, base },
            Expr::Record { typ: typ2, types: types2, exprs: y, base: base2 },
        ) => typ == typ2 && types == types2 && x@.len() == y@.len() && (forall|i: int|
            0 <= i < x@.len() ==> x@[i].name == (#[trigger] y@[i]).name && match (
                x@[i].value,
                y@[i].value,
            ) {
                (Some(v), Some(w)) => resolved_as(trials, v, w),
                (None, None) => true,
                _ => false,
            }) && match (base, base2) {
            (Some(v), Some(w)) => resolved_as(trials, *v, *w),
            (None, None) => true,
            _ => false,
        },
        (Expr::Tuple { typ, elems: x }, Expr::Tuple { typ: typ2, elems: y }) => typ == typ2
            && x@.len() == y@.len() && forall|i: int|
            0 <= i < x@.len() ==> resolved_as(trials, x@[i], #[trigger] y@[i]),
        (Expr::LetBindings(x, v), Expr::LetBindings(y, w)) => x@.len() == y@.len() && (forall|
            i: int,
        |
            0 <= i < x@.len() ==> same_but_value(x@[i], #[trigger] y@[i]) && resolved_as(
                trials,
                x@[i].expr,
                y@[i].expr,
            )) && resolved_as(trials, *v, *w),
        (Expr::TypeBindings(x, v), Expr::TypeBindings(y, w)) => x == y && resolved_as(
            trials,
            *v,
            *w,
        ),
        (Expr::Block(x), Expr::Block(y)) => x@.len() == y@.len() && forall|i: int|
            0 <= i < x@.len() ==> resolved_as(trials, x@[i], #[trigger] y@[i]),
        (Expr::Do(d), Expr::Do(e)) => d.id == e.id && resolved_as(trials, *d.bound, *e.bound)
            && resolved_as(trials, *d.body, *e.body),
        _ => b == a,
    }
}

/// `b` binds another value than `a`, and that is all.
pub open spec fn same_but_value(a: ValueBinding, b: ValueBinding) -> bool {
    b.comment == a.comment && b.name == a.name && b.typ == a.typ && b.args == a.args
}

/// Where an argument is not found, and why.
pub type Failures = Seq<(Span, Failure)>;

/// The arguments in `expr` that are not found, in order.
pub open spec fn failures(trials: Trials, expr: SpannedExpr) -> Failures
    decreases expr, 1nat,
{
    match expr.value {
        Expr::Ident(id) => match trial_for(trials, id.name@, 0) {
            None => Seq::empty(),
            Some(trial) => match found(Seq::empty(), trial) {
                Ok(_) => Seq::empty(),
                Err(failure) => seq![(expr.span, failure)],
            },
        },
        Expr::LetBindings(_, body) => part_failures(trials, *body),
        _ => part_failures(trials, expr),
    }
}

/// The arguments in the parts of `expr` that are not found.
pub open spec fn part_failures(trials: Trials, expr: SpannedExpr) -> Failures
    decreases expr, 0nat,
{
    match expr.value {
        Expr::App(func, args) => failures(trials, *func) + failures_in_all(
            trials,
            args@,
            args@.len(),
        ),
        Expr::Lambda(lambda) => failures(trials, *lambda.body),
        Expr::IfElse(pred, if_true, if_false) => failures(trials, *pred) + failures(
            trials,
            *if_true,
        ) + failures(trials, *if_false),
        Expr::Match(value, alts) => failures(trials, *value) + failures_in_alternatives(
            trials,
            alts@,
            alts@.len(),
        ),
        Expr::Infix(l, _, r) => failures(trials, *l) + failures(trials, *r),
        Expr::Projection(value, _, _) => failures(trials, *value),
        Expr::Array(_, exprs) => failures_in_all(trials, exprs@, exprs@.len()),
        Expr::Record { typ: _, types: _, exprs, base } => failures_in_fields(
            trials,
            exprs@,
            exprs@.len(),
        ) + match base {
            Some(base) => failures(trials, *base),
            None => Seq::empty(),
        },
        Expr::Tuple { typ: _, elems } => failures_in_all(trials, elems@, elems@.len()),
        Expr::LetBindings(binds, body) => failures_in_bindings(trials, binds@, binds@.len())
            + failures(trials, *body),
        Expr::TypeBindings(_, body) => failures(trials, *body),
        Expr::Block(exprs) => failures_in_all(trials, exprs@, exprs@.len()),
        Expr::Do(do_expr) => failures(trials, *do_expr.bound) + failures(trials, *do_expr.body),
        _ => Seq::empty(),
    }
}

pub open spec fn failures_in_all(trials: Trials, items: Seq<SpannedExpr>, n: nat) -> Failures
    decreases items, n,
{
    if n == 0 || n > items.len() {
        Seq::empty()
    } else {
        failures_in_all(trials, items, (n - 1) as nat) + failures(trials, items[n - 1])
    }
}

pub open spec fn failures_in_alternatives(
    trials: Trials,
    items: Seq<Alternative>,
    n: nat,
) -> Failures
    decreases items, n,
{
    if n == 0 || n > items.len() {
        Seq::empty()
    } else {
        failures_in_alternatives(trials, items, (n - 1) as nat) + failures(
            trials,
            items[n - 1].expr,
        )
    }
}

pub open spec fn failures_in_bindings(trials: Trials, items: Seq<ValueBinding>, n: nat) -> Failures
    decreases items, n,
{
    if n == 0 || n > items.len() {
        Seq::empty()
    } else {
        failures_in_bindings(trials, items, (n - 1) as nat) + failures(
            trials,
            items[n - 1].expr,
        )
    }
}

pub open spec fn failures_in_fields(trials: Trials, items: Seq<ExprField>, n: nat) -> Failures
    decreases items, n,
{
    if n == 0 || n > items.len() {
        Seq::empty()
    } else {
        failures_in_fields(trials, items, (n - 1) as nat) + match items[n - 1].value {
            Some(expr) => failures(trials, expr),
            None => Seq::empty(),
        }
    }
}

pub open spec fn errors_view(errors: Seq<Spanned<Error>>) -> Failures {
    errors.map_values(
        |error: Spanned<Error>|
            (
                error.span,
                Failure {
                    trouble: trouble(error.value.kind),
                    reason: types_in(error.value.reason),
                },
            ),
    )
}

/// What was tried for the identifier `name`.
fn find_trial<'a>(trials: &'a Vec<(Symbol, Trial)>, name: &Symbol) -> (res: Option<&'a Trial>)
    requires
        forall|i: int| 0 <= i < trials@.len() ==> is_tried((#[trigger] trials@[i]).1),
    ensures
        match res {
            Some(trial) => trial_for(trials@, name@, 0) == Some(*trial) && is_tried(*trial),
            None => trial_for(trials@, name@, 0) is None,
        },
{
    let mut i: usize = 0;
    while i < trials.len()
        invariant
            i <= trials@.len(),
            forall|i: int| 0 <= i < trials@.len() ==> is_tried((#[trigger] trials@[i]).1),
            trial_for(trials@, name@, 0) == trial_for(trials@, name@, i as int),
        decreases trials@.len() - i,
    {
        if trials[i].0 == *name {
            return Some(&trials[i].1);
        }
        i += 1;
    }
    None
}

struct ResolveImplicitsVisitor<'a> {
    trials: &'a Vec<(Symbol, Trial)>,
    errors: Vec<Spanned<Error>>,
}

impl<'a> ResolveImplicitsVisitor<'a> {
    spec fn ready(self) -> bool {
        forall|i: int| 0 <= i < self.trials@.len() ==> is_tried((#[trigger] self.trials@[i]).1)
    }

    /// What was visited had the failures `more`.
    spec fn visited(before: Self, after: Self, more: Failures) -> bool {
        after.trials == before.trials && errors_view(after.errors@) == errors_view(before.errors@)
            + more
    }

    #[verifier::rlimit(30)]
    fn visit_expr(&mut self, expr: &mut SpannedExpr)
        requires
            old(self).ready(),
        ensures
            Self::visited(*old(self), *final(self), failures(old(self).trials@, *old(expr))),
            resolved_as(old(self).trials@, *old(expr), *final(expr)),
        decreases *old(expr), 1nat,
    {
        let ghost start = errors_view(self.errors@);
        let ghost a = *expr;
        let mut replacement: Option<SpannedExpr> = None;
        let mut is_ident = false;
        if let Expr::Ident(id) = &expr.value {
            is_ident = true;
            if let Some(trial) = find_trial(self.trials, &id.name) {
                match resolve_implicit(expr.span, trial) {
                    Ok(found) => {
                        replacement = Some(found);
                    },
                    Err(error) => {
                        let ghost before = self.errors@;
                        self.errors.push(Spanned { span: expr.span, value: error });
                        assert(errors_view(self.errors@) =~= errors_view(before)
                            + failures(self.trials@, a));
                    },
                }
            }
        }
        assert(start + Seq::empty() =~= start);
        if let Some(found) = replacement {
            *expr = found;
            return;
        }
        if is_ident {
            return;
        }
        let is_let = match &expr.value {
            Expr::LetBindings(_, _) => true,
            _ => false,
        };
        if is_let {
            if let Expr::LetBindings(_, body) = &mut expr.value {
                self.walk_expr(body);
            }
        } else {
            self.walk_expr(expr);
        }
    }

    #[verifier::rlimit(60)]
    fn walk_expr(&mut self, expr: &mut SpannedExpr)
        requires
            old(self).ready(),
        ensures
            Self::visited(*old(self), *final(self), part_failures(old(self).trials@, *old(expr))),
            parts_resolved_as(old(self).trials@, *old(expr), *final(expr)),
        decreases *old(expr), 0nat,
    {
        let ghost start = errors_view(self.errors@);
        let ghost a = *expr;
        match &mut expr.value {
            Expr::App(func, args) => {
                self.visit_expr(func);
                self.visit_exprs(args);
            },
            Expr::Lambda(lambda) => {
                self.visit_expr(&mut lambda.body);
            },
            Expr::IfElse(pred, if_true, if_false) => {
                self.visit_expr(pred);
                self.visit_expr(if_true);
                self.visit_expr(if_false);
            },
            Expr::Match(value, alts) => {
                self.visit_expr(value);
                self.visit_alternatives(alts);
            },
            Expr::Infix(l, _, r) => {
                self.visit_expr(l);
                self.visit_expr(r);
            },
            Expr::Projection(value, _, _) => {
                self.visit_expr(value);
            },
            Expr::Array(_, exprs) => {
                self.visit_exprs(exprs);
            },
            Expr::Record { typ: _, types: _, exprs, base } => {
                self.visit_fields(exprs);
                if let Some(base) = base {
                    self.visit_expr(base);
                }
            },
            Expr::Tuple { typ: _, elems } => {
                self.visit_exprs(elems);
            },
            Expr::LetBindings(binds, body) => {
                self.visit_bindings(binds);
                self.visit_expr(body);
            },
            Expr::TypeBindings(_, body) => {
                self.visit_expr(body);
            },
            Expr::Block(exprs) => {
                self.visit_exprs(exprs);
            },
            Expr::Do(do_expr) => {
                self.visit_expr(&mut do_expr.bound);
                self.visit_expr(&mut do_expr.body);
            },
            Expr::Ident(_) => {},
            Expr::Literal(_) => {},
            Expr::Error => {},
        }
        assert(errors_view(self.errors@) =~= start + part_failures(self.trials@, a));
    }

    #[verifier::rlimit(30)]
    fn visit_exprs(&mut self, items: &mut Vec<SpannedExpr>)
        requires
            old(self).ready(),
        ensures
            Self::visited(
                *old(self),
                *final(self),
                failures_in_all(old(self).trials@, old(items)@, old(items)@.len()),
            ),
            final(items)@.len() == old(items)@.len(),
            forall|i: int|
                0 <= i < old(items)@.len() ==> resolved_as(
                    old(self).trials@,
                    old(items)@[i],
                    #[trigger] final(items)@[i],
                ),
        decreases old(items)@, 0nat,
    {
        let ghost start = errors_view(self.errors@);
        let ghost all = items@;
        let mut i: usize = 0;
        assert(start + Seq::empty() =~= start);
        while i < items.len()
            invariant
                i <= items@.len() == all.len(),
                all == old(items)@,
                self.ready(),
                self.trials == old(self).trials,
                start == errors_view(old(self).errors@),
                errors_view(self.errors@) == start + failures_in_all(
                    self.trials@,
                    all,
                    i as nat,
                ),
                forall|j: int|
                    0 <= j < i ==> resolved_as(
                        self.trials@,
                        all[j],
                        #[trigger] items@[j],
                    ),
                forall|j: int| i <= j < all.len() ==> #[trigger] items@[j] == all[j],
            decreases items@.len() - i,
        {
            assert(items@[i as int] == all[i as int]);
            assert(decreases_to!(all => all[i as int]));
            self.visit_expr(&mut items[i]);
            assert(errors_view(self.errors@) =~= start + failures_in_all(
                self.trials@,
                all,
                i as nat + 1,
            ));
            i += 1;
        }
    }

    #[verifier::rlimit(30)]
    fn visit_alternatives(&mut self, items: &mut Vec<Alternative>)
        requires
            old(self).ready(),
        ensures
            Self::visited(
                *old(self),
                *final(self),
                failures_in_alternatives(old(self).trials@, old(items)@, old(items)@.len()),
            ),
            final(items)@.len() == old(items)@.len(),
            forall|i: int|
                0 <= i < old(items)@.len() ==> old(items)@[i].pattern == (
                #[trigger] final(items)@[i]).pattern && resolved_as(
                    old(self).trials@,
                    old(items)@[i].expr,
                    final(items)@[i].expr,
                ),
        decreases old(items)@, 0nat,
    {
        let ghost start = errors_view(self.errors@);
        let ghost all = items@;
        let mut i: usize = 0;
        assert(start + Seq::empty() =~= start);
        while i < items.len()
            invariant
                i <= items@.len() == all.len(),
                all == old(items)@,
                self.ready(),
                self.trials == old(self).trials,
                start == errors_view(old(self).errors@),
                errors_view(self.errors@) == start + failures_in_alternatives(
                    self.trials@,
                    all,
                    i as nat,
                ),
                forall|j: int|
                    0 <= j < i ==> all[j].pattern == (
                    #[trigger] items@[j]).pattern && resolved_as(
                        self.trials@,
                        all[j].expr,
                        items@[j].expr,
                    ),
                forall|j: int| i <= j < all.len() ==> #[trigger] items@[j] == all[j],
            decreases items@.len() - i,
        {
            assert(items@[i as int] == all[i as int]);
            assert(decreases_to!(all => all[i as int]));
            self.visit_expr(&mut items[i].expr);
            assert(errors_view(self.errors@) =~= start + failures_in_alternatives(
                self.trials@,
                all,
                i as nat + 1,
            ));
            i += 1;
        }
    }

    #[verifier::rlimit(30)]
    fn visit_bindings(&mut self, items: &mut Vec<ValueBinding>)
        requires
            old(self).ready(),
        ensures
            Self::visited(
                *old(self),
                *final(self),
                failures_in_bindings(old(self).trials@, old(items)@, old(items)@.len()),
            ),
            final(items)@.len() == old(items)@.len(),
            forall|i: int|
                0 <= i < old(items)@.len() ==> same_but_value(
                    old(items)@[i],
                    #[trigger] final(items)@[i],
                ) && resolved_as(old(self).trials@, old(items)@[i].expr, final(items)@[i].expr),
        decreases old(items)@, 0nat,
    {
        let ghost start = errors_view(self.errors@);
        let ghost all = items@;
        let mut i: usize = 0;
        assert(start + Seq::empty() =~= start);
        while i < items.len()
            invariant
                i <= items@.len() == all.len(),
                all == old(items)@,
                self.ready(),
                self.trials == old(self).trials,
                start == errors_view(old(self).errors@),
                errors_view(self.errors@) == start + failures_in_bindings(
                    self.trials@,
                    all,
                    i as nat,
                ),
                forall|j: int|
                    0 <= j < i ==> same_but_value(
                        all[j],
                        #[trigger] items@[j],
                    ) && resolved_as(self.trials@, all[j].expr, items@[j].expr),
                forall|j: int| i <= j < all.len() ==> #[trigger] items@[j] == all[j],
            decreases items@.len() - i,
        {
            assert(items@[i as int] == all[i as int]);
            assert(decreases_to!(all => all[i as int]));
            self.visit_expr(&mut items[i].expr);
            assert(errors_view(self.errors@) =~= start + failures_in_bindings(
                self.trials@,
                all,
                i as nat + 1,
            ));
            i += 1;
        }
    }

    #[verifier::rlimit(30)]
    fn visit_fields(&mut self, items: &mut Vec<ExprField>)
        requires
            old(self).ready(),
        ensures
            Self::visited(
                *old(self),
                *final(self),
                failures_in_fields(old(self).trials@, old(items)@, old(items)@.len()),
            ),
            final(items)@.len() == old(items)@.len(),
            forall|i: int|
                0 <= i < old(items)@.len() ==> old(items)@[i].name == (
                #[trigger] final(items)@[i]).name
                    && match (old(items)@[i].value, final(items)@[i].value) {
                    (Some(v), Some(w)) => resolved_as(old(self).trials@, v, w),
                    (None, None) => true,
                    _ => false,
                },
        decreases old(items)@, 0nat,
    {
        let ghost start = errors_view(self.errors@);
        let ghost all = items@;
        let mut i: usize = 0;
        assert(start + Seq::empty() =~= start);
        while i < items.len()
            invariant
                i <= items@.len() == all.len(),
                all == old(items)@,
                self.ready(),
                self.trials == old(self).trials,
                start == errors_view(old(self).errors@),
                errors_view(self.errors@) == start + failures_in_fields(
                    self.trials@,
                    all,
                    i as nat,
                ),
                forall|j: int|
                    0 <= j < i ==> all[j].name == (#[trigger] items@[j]).name
                        && match (all[j].value, items@[j].value) {
                        (Some(v), Some(w)) => resolved_as(self.trials@, v, w),
                        (None, None) => true,
                        _ => false,
                    },
                forall|j: int| i <= j < all.len() ==> #[trigger] items@[j] == all[j],
            decreases items@.len() - i,
        {
            assert(items@[i as int] == all[i as int]);
            assert(decreases_to!(all => all[i as int]));
            match &mut items[i].value {
                Some(value) => {
                    self.visit_expr(value);
                },
                None => {},
            }
            assert(errors_view(self.errors@) =~= start + failures_in_fields(
                self.trials@,
                all,
                i as nat + 1,
            ));
            i += 1;
        }
    }
}

/// Puts the implicit arguments into `expr` in the places of the identifiers that stand for them,
/// and tells which of them are not found. What is put there holds no such identifier itself.
pub fn resolve(trials: &Vec<(Symbol, Trial)>, expr: &mut SpannedExpr) -> (res: Vec<Spanned<Error>>)
    requires
        forall|i: int| 0 <= i < trials@.len() ==> is_tried((#[trigger] trials@[i]).1),
    ensures
        resolved_as(trials@, *old(expr), *final(expr)),
        errors_view(res@) == failures(trials@, *old(expr)),
{
    let mut visitor = ResolveImplicitsVisitor { trials, errors: Vec::new() };
    let ghost a = *expr;
    visitor.visit_expr(expr);
    assert(errors_view(visitor.errors@) =~= failures(trials@, a));
    visitor.errors
}

} // verus!
