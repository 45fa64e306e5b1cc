//! What the check of recursive bindings promises of every expression that it accepts.

use vstd::prelude::*;
use crate::ast::{
    Alternative, Expr, ExprField, Pattern, SpannedExpr, SpannedIdent, TypedIdent, ValueBinding,
};
use crate::pos::{Span, Spanned};
use crate::recursion_check::{
    adds_to, adds_to_self, adds_to_trans, alternative_faults, any_use, blamed, blamed_adds,
    checked, checked_adds_uses, checked_all, checked_all_adds_uses, checked_alternatives,
    checked_alternatives_adds_uses, checked_binding, checked_binding_adds, checked_bindings,
    checked_bindings_adds_uses, checked_fields, checked_fields_adds_uses, constructor_ident,
    nothing_checked, tail_faults, used, used_adds, value_names, Checked, Fault, Use,
};

verus! {

/// The name `ident` as an expression.
pub open spec fn name_expr(ident: SpannedIdent) -> SpannedExpr {
    Spanned { span: ident.span, value: Expr::Ident(ident.value) }
}

/// The value of a field. Without a value of its own the field has that of its name.
pub open spec fn field_expr(field: ExprField) -> SpannedExpr {
    match field.value {
        Some(expr) => expr,
        None => Spanned {
            span: field.name.span,
            value: Expr::Ident(TypedIdent { name: field.name.value, typ: arbitrary() }),
        },
    }
}

/// The expressions that `expr` is made of, in order. A name that is used counts as an expression.
pub open spec fn parts(expr: SpannedExpr) -> Seq<SpannedExpr> {
    match expr.value {
        Expr::App(func, args) => seq![*func] + args@,
        Expr::Lambda(lambda) => seq![*lambda.body],
        Expr::IfElse(pred, if_true, if_false) => seq![*pred, *if_true, *if_false],
        Expr::Match(value, alts) => seq![*value] + alts@.map_values(|alt: Alternative| alt.expr),
        Expr::Infix(lhs, op, rhs) => seq![*lhs, name_expr(op), *rhs],
        Expr::Projection(value, _, _) => seq![*value],
        Expr::Array(_, exprs) => exprs@,
        Expr::Record { typ: _, types: _, exprs, base } => exprs@.map_values(
            |field: ExprField| field_expr(field),
        ) + match base {
            Some(base) => seq![*base],
            None => Seq::empty(),
        },
        Expr::Tuple { typ: _, elems } => elems@,
        Expr::LetBindings(binds, body) => binds@.map_values(|bind: ValueBinding| bind.expr)
            + seq![*body],
        Expr::TypeBindings(_, body) => seq![*body],
        Expr::Block(exprs) => exprs@,
        Expr::Do(do_expr) => seq![name_expr(do_expr.id), *do_expr.bound, *do_expr.body],
        _ => Seq::empty(),
    }
}

/// The expression that `path` leads to: each step goes to one of the parts.
pub open spec fn part_at(expr: SpannedExpr, path: Seq<int>) -> Option<SpannedExpr>
    decreases path.len(),
{
    if path.len() == 0 {
        Some(expr)
    } else if 0 <= path[0] < parts(expr).len() {
        part_at(parts(expr)[path[0]], path.drop_first())
    } else {
        None
    }
}

/// The expression that `path` leads to, if it is not inside of a lambda.
pub open spec fn eager_at(expr: SpannedExpr, path: Seq<int>) -> Option<SpannedExpr>
    decreases path.len(),
{
    if path.len() == 0 {
        Some(expr)
    } else if 0 <= path[0] < parts(expr).len() && !(expr.value is Lambda) {
        eager_at(parts(expr)[path[0]], path.drop_first())
    } else {
        None
    }
}

/// The value of the part `i` of `expr` is needed when `expr` is evaluated: it is an operand of an
/// operator or the operator, the function or an argument of a call, unless a constructor is applied,
/// or what is matched.
pub open spec fn is_strict(expr: SpannedExpr, i: int) -> bool {
    match expr.value {
        Expr::Infix(..) => true,
        Expr::App(func, _) => !constructor_ident(*func),
        Expr::Match(..) => i == 0,
        _ => false,
    }
}

/// `bind` gives the name `name` a value.
pub open spec fn binds_name(bind: ValueBinding, name: Seq<char>) -> bool {
    bind.name.value matches Pattern::Ident(id) && id.name@ == name
}

/// `expr` itself binds `name`.
pub open spec fn binds_here(expr: SpannedExpr, name: Seq<char>) -> bool {
    expr.value matches Expr::LetBindings(binds, _) && exists|i: int|
        0 <= i < binds@.len() && binds_name(#[trigger] binds@[i], name)
}

/// Nothing in `expr` binds `name`.
pub open spec fn is_unbound(expr: SpannedExpr, name: Seq<char>) -> bool {
    forall|path: Seq<int>|
        (#[trigger] part_at(expr, path)) matches Some(part) ==> !binds_here(part, name)
}

proof fn at_part(expr: SpannedExpr, i: int, path: Seq<int>)
    requires
        0 <= i < parts(expr).len(),
    ensures
        part_at(expr, seq![i] + path) == part_at(parts(expr)[i], path),
{
    assert((seq![i] + path).drop_first() =~= path);
}

proof fn unbound_in_part(expr: SpannedExpr, i: int, name: Seq<char>)
    requires
        is_unbound(expr, name),
        0 <= i < parts(expr).len(),
    ensures
        is_unbound(parts(expr)[i], name),
{
    let part = parts(expr)[i];
    assert forall|path: Seq<int>| (#[trigger] part_at(part, path)) matches Some(inner) implies !binds_here(
        part_at(part, path)->0,
        name,
    ) by {
        at_part(expr, i, path);
        assert(part_at(expr, seq![i] + path) == part_at(part, path));
    }
}

proof fn unbound_here(expr: SpannedExpr, name: Seq<char>, i: int)
    requires
        is_unbound(expr, name),
    ensures
        expr.value matches Expr::LetBindings(binds, _) ==> (0 <= i < binds@.len() ==> !binds_name(
            binds@[i],
            name,
        )),
{
    assert(part_at(expr, Seq::empty()) == Some(expr));
}

proof fn all_keep(s: Checked, exprs: Seq<SpannedExpr>, n: nat, name: Seq<char>)
    requires
        s.uninitialized.contains(name),
        n <= exprs.len(),
        forall|i: int| 0 <= i < exprs.len() ==> is_unbound(#[trigger] exprs[i], name),
    ensures
        checked_all(s, exprs, n) matches Some(t) ==> t.uninitialized.contains(name),
    decreases exprs, n,
{
    if n > 0 {
        all_keep(s, exprs, (n - 1) as nat, name);
        if let Some(t) = checked_all(s, exprs, (n - 1) as nat) {
            stays_uninitialized(t, exprs[n - 1], name);
        }
    }
}

proof fn alternatives_keep(s: Checked, alts: Seq<Alternative>, n: nat, name: Seq<char>)
    requires
        s.uninitialized.contains(name),
        n <= alts.len(),
        forall|i: int| 0 <= i < alts.len() ==> is_unbound((#[trigger] alts[i]).expr, name),
    ensures
        checked_alternatives(s, alts, n) matches Some(t) ==> t.uninitialized.contains(name),
    decreases alts, n,
{
    if n > 0 {
        alternatives_keep(s, alts, (n - 1) as nat, name);
        if let Some(t) = checked_alternatives(s, alts, (n - 1) as nat) {
            stays_uninitialized(t, alts[n - 1].expr, name);
        }
    }
}

proof fn fields_keep(s: Checked, fields: Seq<ExprField>, n: nat, name: Seq<char>)
    requires
        s.uninitialized.contains(name),
        n <= fields.len(),
        forall|i: int| 0 <= i < fields.len() ==> is_unbound(field_expr(#[trigger] fields[i]), name),
    ensures
        checked_fields(s, fields, n) matches Some(t) ==> t.uninitialized.contains(name),
    decreases fields, n,
{
    if n > 0 {
        fields_keep(s, fields, (n - 1) as nat, name);
        if let Some(t) = checked_fields(s, fields, (n - 1) as nat) {
            if let Some(expr) = fields[n - 1].value {
                assert(is_unbound(field_expr(fields[n - 1]), name));
                stays_uninitialized(t, expr, name);
            }
        }
    }
}

proof fn bindings_keep(s: Checked, binds: Seq<ValueBinding>, n: nat, name: Seq<char>)
    requires
        s.uninitialized.contains(name),
        n <= binds.len(),
        forall|i: int|
            0 <= i < n ==> is_unbound((#[trigger] binds[i]).expr, name) && !binds_name(
                binds[i],
                name,
            ),
    ensures
        checked_bindings(s, binds, n) matches Some(t) ==> t.uninitialized.contains(name),
    decreases binds, n,
{
    if n > 0 {
        bindings_keep(s, binds, (n - 1) as nat, name);
        if let Some(t) = checked_bindings(s, binds, (n - 1) as nat) {
            stays_uninitialized(t, binds[n - 1].expr, name);
        }
    }
}

/// A name without a value has none behind an expression that does not bind it either.
#[verifier::rlimit(40)]
proof fn stays_uninitialized(s: Checked, expr: SpannedExpr, name: Seq<char>)
    requires
        s.uninitialized.contains(name),
        is_unbound(expr, name),
    ensures
        checked(s, expr) matches Some(t) ==> t.uninitialized.contains(name),
    decreases expr, 0nat,
{
    let all = parts(expr);
    assert forall|i: int| 0 <= i < all.len() implies is_unbound(#[trigger] all[i], name) by {
        unbound_in_part(expr, i, name);
    }
    match expr.value {
        Expr::LetBindings(binds, body) => {
            let start = Checked {
                uninitialized: s.uninitialized.union(value_names(binds@, binds@.len())),
                ..s
            };
            assert forall|i: int| 0 <= i < binds@.len() implies is_unbound(
                (#[trigger] binds@[i]).expr,
                name,
            ) && !binds_name(binds@[i], name) by {
                assert(all[i] == binds@[i].expr);
                unbound_here(expr, name, i);
            }
            bindings_keep(start, binds@, binds@.len(), name);
            assert(all[binds@.len() as int] == *body);
            if let Some(t) = checked_bindings(start, binds@, binds@.len()) {
                stays_uninitialized(t, *body, name);
            }
        },
        Expr::TypeBindings(_, body) => {
            assert(all[0] == *body);
            stays_uninitialized(s, *body, name);
        },
        Expr::App(func, args) => {
            assert(all[0] == *func);
            assert forall|i: int| 0 <= i < args@.len() implies is_unbound(
                #[trigger] args@[i],
                name,
            ) by {
                assert(all[i + 1] == args@[i]);
            }
            stays_uninitialized(s, *func, name);
            if let Some(t) = checked(s, *func) {
                all_keep(t, args@, args@.len(), name);
            }
        },
        Expr::Infix(lhs, op, rhs) => {
            assert(all[0] == *lhs && all[2] == *rhs);
            stays_uninitialized(s, *lhs, name);
            if let Some(t) = checked(s, *lhs) {
                stays_uninitialized(used(t, op.span, op.value.name@), *rhs, name);
            }
        },
        Expr::Match(value, alts) => {
            assert(all[0] == *value);
            assert forall|i: int| 0 <= i < alts@.len() implies is_unbound(
                (#[trigger] alts@[i]).expr,
                name,
            ) by {
                assert(all[i + 1] == alts@[i].expr);
            }
            stays_uninitialized(s, *value, name);
            if let Some(t) = checked(s, *value) {
                alternatives_keep(blamed(t, s.uses.len()), alts@, alts@.len(), name);
            }
        },
        Expr::IfElse(pred, if_true, if_false) => {
            assert(all[0] == *pred && all[1] == *if_true && all[2] == *if_false);
            stays_uninitialized(s, *pred, name);
            if let Some(t) = checked(s, *pred) {
                stays_uninitialized(t, *if_true, name);
                if let Some(u) = checked(t, *if_true) {
                    stays_uninitialized(u, *if_false, name);
                }
            }
        },
        Expr::Projection(value, _, _) => {
            assert(all[0] == *value);
            stays_uninitialized(s, *value, name);
        },
        Expr::Array(_, exprs) => {
            all_keep(s, exprs@, exprs@.len(), name);
        },
        Expr::Record { typ: _, types: _, exprs, base } => {
            assert forall|i: int| 0 <= i < exprs@.len() implies is_unbound(
                field_expr(#[trigger] exprs@[i]),
                name,
            ) by {
                assert(all[i] == field_expr(exprs@[i]));
            }
            fields_keep(s, exprs@, exprs@.len(), name);
            if let Some(t) = checked_fields(s, exprs@, exprs@.len()) {
                if let Some(base) = base {
                    assert(all[exprs@.len() as int] == *base);
                    stays_uninitialized(t, *base, name);
                }
            }
        },
        Expr::Tuple { typ: _, elems } => {
            all_keep(s, elems@, elems@.len(), name);
        },
        Expr::Block(exprs) => {
            all_keep(s, exprs@, exprs@.len(), name);
        },
        Expr::Do(do_expr) => {
            assert(all[1] == *do_expr.bound && all[2] == *do_expr.body);
            let t = used(s, do_expr.id.span, do_expr.id.value.name@);
            stays_uninitialized(t, *do_expr.bound, name);
            if let Some(u) = checked(t, *do_expr.bound) {
                stays_uninitialized(u, *do_expr.body, name);
            }
        },
        _ => {},
    }
}

/// The states before and behind the expression `exprs[i]`.
proof fn all_step(s: Checked, exprs: Seq<SpannedExpr>, n: nat, i: int) -> (c: (Checked, Checked))
    requires
        0 <= i < n <= exprs.len(),
        checked_all(s, exprs, n) is Some,
    ensures
        checked_all(s, exprs, i as nat) == Some(c.0),
        checked(c.0, exprs[i]) == Some(c.1),
        adds_to(s, c.0),
        adds_to(c.1, checked_all(s, exprs, n)->0),
    decreases n,
{
    let before = checked_all(s, exprs, (n - 1) as nat)->0;
    let t = checked_all(s, exprs, n)->0;
    if i == n - 1 {
        checked_all_adds_uses(s, exprs, (n - 1) as nat);
        adds_to_self(t, t.uninitialized);
        (before, t)
    } else {
        let c = all_step(s, exprs, (n - 1) as nat, i);
        checked_adds_uses(before, exprs[n - 1]);
        adds_to_trans(c.1, before, t);
        c
    }
}

proof fn alternatives_step(s: Checked, alts: Seq<Alternative>, n: nat, i: int) -> (c: (
    Checked,
    Checked,
))
    requires
        0 <= i < n <= alts.len(),
        checked_alternatives(s, alts, n) is Some,
    ensures
        checked_alternatives(s, alts, i as nat) == Some(c.0),
        checked(c.0, alts[i].expr) == Some(c.1),
        adds_to(s, c.0),
        adds_to(c.1, checked_alternatives(s, alts, n)->0),
    decreases n,
{
    let before = checked_alternatives(s, alts, (n - 1) as nat)->0;
    let t = checked_alternatives(s, alts, n)->0;
    if i == n - 1 {
        checked_alternatives_adds_uses(s, alts, (n - 1) as nat);
        adds_to_self(t, t.uninitialized);
        (before, t)
    } else {
        let c = alternatives_step(s, alts, (n - 1) as nat, i);
        checked_adds_uses(before, alts[n - 1].expr);
        adds_to_trans(c.1, before, t);
        c
    }
}

proof fn fields_step(s: Checked, fields: Seq<ExprField>, n: nat, i: int) -> (c: (Checked, Checked))
    requires
        0 <= i < n <= fields.len(),
        checked_fields(s, fields, n) is Some,
    ensures
        checked_fields(s, fields, i as nat) == Some(c.0),
        checked(c.0, field_expr(fields[i])) == Some(c.1),
        adds_to(s, c.0),
        adds_to(c.1, checked_fields(s, fields, n)->0),
    decreases n,
{
    let before = checked_fields(s, fields, (n - 1) as nat)->0;
    let t = checked_fields(s, fields, n)->0;
    assert(checked(before, field_expr(fields[n - 1])) == Some(t));
    if i == n - 1 {
        checked_fields_adds_uses(s, fields, (n - 1) as nat);
        adds_to_self(t, t.uninitialized);
        (before, t)
    } else {
        let c = fields_step(s, fields, (n - 1) as nat, i);
        checked_adds_uses(before, field_expr(fields[n - 1]));
        adds_to_trans(c.1, before, t);
        c
    }
}

proof fn bindings_step(s: Checked, binds: Seq<ValueBinding>, n: nat, i: int) -> (c: (
    Checked,
    Checked,
))
    requires
        0 <= i < n <= binds.len(),
        checked_bindings(s, binds, n) is Some,
    ensures
        checked_bindings(s, binds, i as nat) == Some(c.0),
        checked(c.0, binds[i].expr) == Some(c.1),
        adds_to(s, c.0),
        adds_to(c.1, checked_bindings(s, binds, n)->0),
    decreases n,
{
    let before = checked_bindings(s, binds, (n - 1) as nat)->0;
    let bind = binds[n - 1];
    let after = checked(before, bind.expr)->0;
    let t = checked_bindings(s, binds, n)->0;
    checked_binding_adds(after, before.uses.len(), bind.name, bind.expr);
    if i == n - 1 {
        checked_bindings_adds_uses(s, binds, (n - 1) as nat);
        (before, after)
    } else {
        let c = bindings_step(s, binds, (n - 1) as nat, i);
        checked_adds_uses(before, bind.expr);
        adds_to_trans(c.1, before, after);
        adds_to_trans(c.1, after, t);
        c
    }
}

/// All uses that `from` has and `to` does not count among the faults of `t`.
spec fn all_blamed(from: Checked, to: Checked, t: Checked) -> bool {
    forall|k: int|
        from.uses.len() <= k < to.uses.len() ==> t.faults.contains(
            Fault::InvalidRecursion((#[trigger] to.uses[k]).span, to.uses[k].name),
        )
}

/// What is blamed behind `u` was used up to `to`, which comes before it.
proof fn blame_reaches(s: Checked, from: Checked, to: Checked, u: Checked)
    requires
        adds_to(s, from),
        adds_to(to, u),
    ensures
        all_blamed(from, to, blamed(u, s.uses.len())),
{
    let t = blamed(u, s.uses.len());
    assert forall|k: int| from.uses.len() <= k < to.uses.len() implies t.faults.contains(
        Fault::InvalidRecursion((#[trigger] to.uses[k]).span, to.uses[k].name),
    ) by {
        assert(u.uses.take(to.uses.len() as int)[k] == to.uses[k]);
        let at = u.faults.len() + (k - s.uses.len());
        assert(t.faults[at] == Fault::InvalidRecursion(u.uses[k].span, u.uses[k].name));
    }
}

proof fn faults_stay(from: Checked, to: Checked, s: Checked, t: Checked)
    requires
        adds_to(s, t),
        all_blamed(from, to, s),
    ensures
        all_blamed(from, to, t),
{
    assert forall|k: int| from.uses.len() <= k < to.uses.len() implies t.faults.contains(
        Fault::InvalidRecursion((#[trigger] to.uses[k]).span, to.uses[k].name),
    ) by {
        fault_stays(s, t, Fault::InvalidRecursion(to.uses[k].span, to.uses[k].name));
    }
}

proof fn fault_stays(s: Checked, t: Checked, fault: Fault)
    requires
        adds_to(s, t),
        s.faults.contains(fault),
    ensures
        t.faults.contains(fault),
{
    let i = choose|i: int| 0 <= i < s.faults.len() && s.faults[i] == fault;
    assert(t.faults.take(s.faults.len() as int)[i] == fault);
    assert(t.faults[i] == fault);
}

/// The states before and behind the part `i` of `expr`. What has no value before `expr` has none
/// before the part, outside of a lambda, and what a strict part uses is blamed.
#[verifier::rlimit(80)]
proof fn step(s: Checked, expr: SpannedExpr, i: int, name: Seq<char>) -> (c: (Checked, Checked))
    requires
        checked(s, expr) is Some,
        0 <= i < parts(expr).len(),
    ensures
        checked(c.0, parts(expr)[i]) == Some(c.1),
        adds_to(s, c.0),
        adds_to(c.1, checked(s, expr)->0),
        !(expr.value is Lambda) && s.uninitialized.contains(name) && is_unbound(expr, name)
            ==> c.0.uninitialized.contains(name),
        is_strict(expr, i) ==> all_blamed(c.0, c.1, checked(s, expr)->0),
{
    let all = parts(expr);
    let t = checked(s, expr)->0;
    let keeps = s.uninitialized.contains(name) && is_unbound(expr, name);
    if keeps {
        assert forall|i: int| 0 <= i < all.len() implies is_unbound(#[trigger] all[i], name) by {
            unbound_in_part(expr, i, name);
        }
    }
    adds_to_self(s, s.uninitialized);
    adds_to_self(t, t.uninitialized);
    match expr.value {
        Expr::LetBindings(binds, body) => {
            let start = Checked {
                uninitialized: s.uninitialized.union(value_names(binds@, binds@.len())),
                ..s
            };
            let mid = checked_bindings(start, binds@, binds@.len())->0;
            if keeps {
                assert forall|i: int| 0 <= i < binds@.len() implies is_unbound(
                    (#[trigger] binds@[i]).expr,
                    name,
                ) && !binds_name(binds@[i], name) by {
                    assert(all[i] == binds@[i].expr);
                    unbound_here(expr, name, i);
                }
            }
            adds_to_self(s, start.uninitialized);
            checked_adds_uses(mid, *body);
            if i < binds@.len() {
                let c = bindings_step(start, binds@, binds@.len(), i);
                adds_to_trans(s, start, c.0);
                adds_to_trans(c.1, mid, t);
                if keeps {
                    bindings_keep(start, binds@, i as nat, name);
                }
                c
            } else {
                checked_bindings_adds_uses(start, binds@, binds@.len());
                adds_to_trans(s, start, mid);
                if keeps {
                    bindings_keep(start, binds@, binds@.len(), name);
                }
                (mid, t)
            }
        },
        Expr::TypeBindings(_, _) => (s, t),
        Expr::Lambda(lambda) => {
            let start = Checked { uninitialized: Set::empty(), ..s };
            adds_to_self(s, Set::empty());
            let after = checked(start, *lambda.body)->0;
            adds_to_self(after, s.uninitialized);
            (start, after)
        },
        Expr::App(func, args) => {
            let first = checked(s, *func)->0;
            let last = checked_all(first, args@, args@.len())->0;
            checked_adds_uses(s, *func);
            checked_all_adds_uses(first, args@, args@.len());
            blamed_adds(last, s.uses.len());
            adds_to_self(last, last.uninitialized);
            assert(adds_to(last, t));
            if i == 0 {
                blame_reaches(s, s, first, last);
                adds_to_trans(first, last, t);
                (s, first)
            } else {
                assert(all[i] == args@[i - 1]);
                let c = all_step(first, args@, args@.len(), i - 1);
                adds_to_trans(s, first, c.0);
                adds_to_trans(c.1, last, t);
                blame_reaches(s, c.0, c.1, last);
                if keeps {
                    assert(all[0] == *func);
                    stays_uninitialized(s, *func, name);
                    assert forall|k: int| 0 <= k < args@.len() implies is_unbound(
                        #[trigger] args@[k],
                        name,
                    ) by {
                        assert(all[k + 1] == args@[k]);
                    }
                    all_keep(first, args@, (i - 1) as nat, name);
                }
                c
            }
        },
        Expr::Infix(lhs, op, rhs) => {
            let first = checked(s, *lhs)->0;
            let second = used(first, op.span, op.value.name@);
            let last = checked(second, *rhs)->0;
            checked_adds_uses(s, *lhs);
            used_adds(first, op.span, op.value.name@);
            checked_adds_uses(second, *rhs);
            blamed_adds(last, s.uses.len());
            adds_to_self(last, last.uninitialized);
            adds_to_trans(s, first, second);
            adds_to_trans(first, second, last);
            adds_to_trans(first, last, t);
            adds_to_trans(second, last, t);
            if keeps {
                assert(all[0] == *lhs);
                stays_uninitialized(s, *lhs, name);
            }
            if i == 0 {
                blame_reaches(s, s, first, last);
                (s, first)
            } else if i == 1 {
                blame_reaches(s, first, second, last);
                (first, second)
            } else {
                blame_reaches(s, second, last, last);
                (second, last)
            }
        },
        Expr::Match(value, alts) => {
            let first = checked(s, *value)->0;
            let second = blamed(first, s.uses.len());
            checked_adds_uses(s, *value);
            blamed_adds(first, s.uses.len());
            adds_to_self(first, first.uninitialized);
            adds_to_trans(s, first, second);
            checked_alternatives_adds_uses(second, alts@, alts@.len());
            if i == 0 {
                blame_reaches(s, s, first, first);
                faults_stay(s, first, second, t);
                adds_to_trans(first, second, t);
                (s, first)
            } else {
                assert(all[i] == alts@[i - 1].expr);
                let c = alternatives_step(second, alts@, alts@.len(), i - 1);
                adds_to_trans(s, second, c.0);
                if keeps {
                    assert(all[0] == *value);
                    stays_uninitialized(s, *value, name);
                    assert forall|k: int| 0 <= k < alts@.len() implies is_unbound(
                        (#[trigger] alts@[k]).expr,
                        name,
                    ) by {
                        assert(all[k + 1] == alts@[k].expr);
                    }
                    alternatives_keep(second, alts@, (i - 1) as nat, name);
                }
                c
            }
        },
        Expr::IfElse(pred, if_true, if_false) => {
            let first = checked(s, *pred)->0;
            let second = checked(first, *if_true)->0;
            checked_adds_uses(s, *pred);
            checked_adds_uses(first, *if_true);
            checked_adds_uses(second, *if_false);
            adds_to_trans(s, first, second);
            adds_to_trans(first, second, t);
            if keeps {
                assert(all[0] == *pred && all[1] == *if_true);
                stays_uninitialized(s, *pred, name);
                stays_uninitialized(first, *if_true, name);
            }
            if i == 0 {
                (s, first)
            } else if i == 1 {
                (first, second)
            } else {
                (second, t)
            }
        },
        Expr::Projection(_, _, _) => (s, t),
        Expr::Array(_, exprs) => {
            if keeps {
                all_keep(s, exprs@, i as nat, name);
            }
            all_step(s, exprs@, exprs@.len(), i)
        },
        Expr::Record { typ: _, types: _, exprs, base } => {
            let mid = checked_fields(s, exprs@, exprs@.len())->0;
            checked_fields_adds_uses(s, exprs@, exprs@.len());
            if keeps {
                assert forall|k: int| 0 <= k < exprs@.len() implies is_unbound(
                    field_expr(#[trigger] exprs@[k]),
                    name,
                ) by {
                    assert(all[k] == field_expr(exprs@[k]));
                }
            }
            if i < exprs@.len() {
                assert(all[i] == field_expr(exprs@[i]));
                let c = fields_step(s, exprs@, exprs@.len(), i);
                if keeps {
                    fields_keep(s, exprs@, i as nat, name);
                }
                if let Some(base) = base {
                    checked_adds_uses(mid, *base);
                    adds_to_trans(c.1, mid, t);
                }
                c
            } else {
                if keeps {
                    fields_keep(s, exprs@, exprs@.len(), name);
                }
                (mid, t)
            }
        },
        Expr::Tuple { typ: _, elems } => {
            if keeps {
                all_keep(s, elems@, i as nat, name);
            }
            all_step(s, elems@, elems@.len(), i)
        },
        Expr::Block(exprs) => {
            if keeps {
                all_keep(s, exprs@, i as nat, name);
            }
            all_step(s, exprs@, exprs@.len(), i)
        },
        Expr::Do(do_expr) => {
            let first = used(s, do_expr.id.span, do_expr.id.value.name@);
            let second = checked(first, *do_expr.bound)->0;
            used_adds(s, do_expr.id.span, do_expr.id.value.name@);
            checked_adds_uses(first, *do_expr.bound);
            checked_adds_uses(second, *do_expr.body);
            adds_to_trans(s, first, second);
            adds_to_trans(first, second, t);
            if keeps {
                assert(all[1] == *do_expr.bound);
                stays_uninitialized(first, *do_expr.bound, name);
            }
            if i == 0 {
                (s, first)
            } else if i == 1 {
                (first, second)
            } else {
                (second, t)
            }
        },
        _ => (s, t),
    }
}

/// A name without a value that is used outside of a lambda counts as used.
proof fn use_counts(s: Checked, expr: SpannedExpr, path: Seq<int>, name: Seq<char>) -> (k: int)
    requires
        s.uninitialized.contains(name),
        is_unbound(expr, name),
        checked(s, expr) is Some,
        eager_at(expr, path) matches Some(part) && (part.value matches Expr::Ident(id) && id.name@
            == name),
    ensures
        s.uses.len() <= k < checked(s, expr)->0.uses.len(),
        checked(s, expr)->0.uses[k] == (Use { span: (eager_at(expr, path)->0).span, name }),
    decreases path.len(),
{
    if path.len() == 0 {
        s.uses.len() as int
    } else {
        let c = step(s, expr, path[0], name);
        unbound_in_part(expr, path[0], name);
        let k = use_counts(c.0, parts(expr)[path[0]], path.drop_first(), name);
        let t = checked(s, expr)->0;
        assert(t.uses.take(c.1.uses.len() as int)[k] == c.1.uses[k]);
        k
    }
}

/// A strict part of an expression uses a name: the steps to the part, the part, and the steps from
/// there to the use, none of which goes into a lambda.
pub open spec fn needs(
    expr: SpannedExpr,
    to_strict: Seq<int>,
    i: int,
    to_use: Seq<int>,
    span: Span,
    name: Seq<char>,
) -> bool {
    eager_at(expr, to_strict) matches Some(strict) && is_strict(strict, i) && 0 <= i < parts(
        strict,
    ).len() && (eager_at(parts(strict)[i], to_use) matches Some(part) && part.span == span && (
    part.value matches Expr::Ident(id) && id.name@ == name))
}

proof fn need_is_reported(
    s: Checked,
    expr: SpannedExpr,
    to_strict: Seq<int>,
    i: int,
    to_use: Seq<int>,
    span: Span,
    name: Seq<char>,
)
    requires
        s.uninitialized.contains(name),
        is_unbound(expr, name),
        checked(s, expr) is Some,
        needs(expr, to_strict, i, to_use, span, name),
    ensures
        checked(s, expr)->0.faults.contains(Fault::InvalidRecursion(span, name)),
    decreases to_strict.len(),
{
    let t = checked(s, expr)->0;
    if to_strict.len() == 0 {
        let c = step(s, expr, i, name);
        unbound_in_part(expr, i, name);
        let k = use_counts(c.0, parts(expr)[i], to_use, name);
        assert(c.1.uses[k] == Use { span, name });
    } else {
        let first = to_strict[0];
        let c = step(s, expr, first, name);
        unbound_in_part(expr, first, name);
        need_is_reported(
            c.0,
            parts(expr)[first],
            to_strict.drop_first(),
            i,
            to_use,
            span,
            name,
        );
        fault_stays(c.1, t, Fault::InvalidRecursion(span, name));
    }
}

/// The value binding `i` of `binds` is the only one that binds `name`, and nothing inside of the
/// bindings binds it.
pub open spec fn bound_once(binds: Seq<ValueBinding>, i: int, name: Seq<char>) -> bool {
    &&& 0 <= i < binds.len()
    &&& binds_name(binds[i], name)
    &&& binds[i].args@.len() == 0
    &&& forall|k: int|
        0 <= k < binds.len() ==> is_unbound((#[trigger] binds[k]).expr, name) && (k != i
            ==> !binds_name(binds[k], name))
}

proof fn values_are_named(binds: Seq<ValueBinding>, n: nat, i: int, name: Seq<char>)
    requires
        0 <= i < n <= binds.len(),
        binds_name(binds[i], name),
        binds[i].args@.len() == 0,
    ensures
        value_names(binds, n).contains(name),
    decreases n,
{
    if i < n - 1 {
        values_are_named(binds, (n - 1) as nat, i, name);
    }
}

proof fn binding_is_reported(
    s: Checked,
    expr: SpannedExpr,
    i: int,
    j: int,
    to_strict: Seq<int>,
    k: int,
    to_use: Seq<int>,
    span: Span,
    name: Seq<char>,
)
    requires
        checked(s, expr) is Some,
        expr.value matches Expr::LetBindings(binds, _) && bound_once(binds@, i, name) && 0 <= j <= i
            && needs(binds@[j].expr, to_strict, k, to_use, span, name),
    ensures
        checked(s, expr)->0.faults.contains(Fault::InvalidRecursion(span, name)),
{
    if let Expr::LetBindings(binds, body) = expr.value {
        let start = Checked {
            uninitialized: s.uninitialized.union(value_names(binds@, binds@.len())),
            ..s
        };
        let mid = checked_bindings(start, binds@, binds@.len())->0;
        let t = checked(s, expr)->0;
        values_are_named(binds@, binds@.len(), i, name);
        let c = bindings_step(start, binds@, binds@.len(), j);
        bindings_keep(start, binds@, j as nat, name);
        need_is_reported(c.0, binds@[j].expr, to_strict, k, to_use, span, name);
        checked_adds_uses(mid, *body);
        adds_to_trans(c.1, mid, t);
        fault_stays(c.1, t, Fault::InvalidRecursion(span, name));
    }
}

proof fn reported_from(
    s: Checked,
    expr: SpannedExpr,
    to_let: Seq<int>,
    i: int,
    j: int,
    to_strict: Seq<int>,
    k: int,
    to_use: Seq<int>,
    span: Span,
    name: Seq<char>,
)
    requires
        checked(s, expr) is Some,
        part_at(expr, to_let) matches Some(part) && (part.value matches Expr::LetBindings(binds, _)
            && bound_once(binds@, i, name) && 0 <= j <= i && needs(
            binds@[j].expr,
            to_strict,
            k,
            to_use,
            span,
            name,
        )),
    ensures
        checked(s, expr)->0.faults.contains(Fault::InvalidRecursion(span, name)),
    decreases to_let.len(),
{
    if to_let.len() == 0 {
        binding_is_reported(s, expr, i, j, to_strict, k, to_use, span, name);
    } else {
        let c = step(s, expr, to_let[0], name);
        reported_from(
            c.0,
            parts(expr)[to_let[0]],
            to_let.drop_first(),
            i,
            j,
            to_strict,
            k,
            to_use,
            span,
            name,
        );
        fault_stays(c.1, checked(s, expr)->0, Fault::InvalidRecursion(span, name));
    }
}

/// A recursive value that is needed before it has a value is reported. Wherever in an expression
/// values are bound, if the value of a binding, or of one before it, needs the name that is bound to
/// be evaluated, the use of the name is one of the faults. What stands inside of a lambda is not
/// needed yet.
pub proof fn recursive_needs_are_reported(
    expr: SpannedExpr,
    to_let: Seq<int>,
    i: int,
    j: int,
    to_strict: Seq<int>,
    k: int,
    to_use: Seq<int>,
    span: Span,
    name: Seq<char>,
)
    requires
        checked(nothing_checked(), expr) is Some,
        part_at(expr, to_let) matches Some(part) && (part.value matches Expr::LetBindings(binds, _)
            && bound_once(binds@, i, name) && 0 <= j <= i && needs(
            binds@[j].expr,
            to_strict,
            k,
            to_use,
            span,
            name,
        )),
    ensures
        checked(nothing_checked(), expr)->0.faults.contains(Fault::InvalidRecursion(span, name)),
{
    reported_from(nothing_checked(), expr, to_let, i, j, to_strict, k, to_use, span, name);
}

/// The value of the part `i` of `expr` is that of `expr`.
pub open spec fn is_tail(expr: SpannedExpr, i: int) -> bool {
    match expr.value {
        Expr::Block(exprs) => i == exprs@.len() - 1,
        Expr::LetBindings(binds, _) => i == binds@.len(),
        Expr::TypeBindings(..) => i == 0,
        Expr::IfElse(..) => i == 1 || i == 2,
        Expr::Match(..) => i >= 1,
        _ => false,
    }
}

/// `expr` ends with another expression.
pub open spec fn has_tail(expr: SpannedExpr) -> bool {
    expr.value is Block || expr.value is LetBindings || expr.value is TypeBindings || expr.value
        is IfElse || expr.value is Match
}

/// `expr` makes a record, a tuple or a variant.
pub open spec fn constructs(expr: SpannedExpr) -> bool {
    expr.value is Record || expr.value is Tuple || (expr.value matches Expr::App(func, _)
        && constructor_ident(*func))
}

/// The expression that `path` leads to, if `expr` may end with it.
pub open spec fn tail_at(expr: SpannedExpr, path: Seq<int>) -> Option<SpannedExpr>
    decreases path.len(),
{
    if path.len() == 0 {
        Some(expr)
    } else if 0 <= path[0] < parts(expr).len() && is_tail(expr, path[0]) {
        tail_at(parts(expr)[path[0]], path.drop_first())
    } else {
        None
    }
}

proof fn alternative_faults_hold(alts: Seq<Alternative>, n: nat, i: int, fault: Fault)
    requires
        0 <= i < n <= alts.len(),
        alternative_faults(alts, n) is Some,
        tail_faults(alts[i].expr) matches Some(faults) ==> faults.contains(fault),
    ensures
        tail_faults(alts[i].expr) is Some,
        alternative_faults(alts, n)->0.contains(fault),
    decreases n,
{
    let before = alternative_faults(alts, (n - 1) as nat)->0;
    let own = tail_faults(alts[n - 1].expr)->0;
    let all = alternative_faults(alts, n)->0;
    assert(all == before + own);
    if i == n - 1 {
        let k = choose|k: int| 0 <= k < own.len() && own[k] == fault;
        assert(all[before.len() + k] == fault);
    } else {
        alternative_faults_hold(alts, (n - 1) as nat, i, fault);
        let k = choose|k: int| 0 <= k < before.len() && before[k] == fault;
        assert(all[k] == fault);
    }
}

proof fn tail_is_known(alts: Seq<Alternative>, n: nat, i: int)
    requires
        0 <= i < n <= alts.len(),
        alternative_faults(alts, n) is Some,
    ensures
        tail_faults(alts[i].expr) is Some,
    decreases n,
{
    if i < n - 1 {
        tail_is_known(alts, (n - 1) as nat, i);
    }
}

/// Each expression that does not construct something, where one has to, is a fault.
proof fn tail_is_blamed(expr: SpannedExpr, path: Seq<int>)
    requires
        tail_faults(expr) is Some,
        tail_at(expr, path) matches Some(last) && !has_tail(last) && !constructs(last),
    ensures
        tail_faults(expr)->0.contains(
            Fault::LastExprMustBeConstructor((tail_at(expr, path)->0).span),
        ),
    decreases path.len(),
{
    let fault = Fault::LastExprMustBeConstructor((tail_at(expr, path)->0).span);
    let all = tail_faults(expr)->0;
    if path.len() == 0 {
        assert(all =~= seq![fault]);
        assert(all[0] == fault);
    } else {
        let rest = path.drop_first();
        let part = parts(expr)[path[0]];
        match expr.value {
            Expr::Match(_, alts) => {
                assert(part == alts@[path[0] - 1].expr);
                tail_is_known(alts@, alts@.len(), path[0] - 1);
                tail_is_blamed(part, rest);
                alternative_faults_hold(alts@, alts@.len(), path[0] - 1, fault);
            },
            Expr::IfElse(_, if_true, if_false) => {
                let (l, r) = (tail_faults(*if_true)->0, tail_faults(*if_false)->0);
                assert(all == l + r);
                tail_is_blamed(part, rest);
                let own = tail_faults(part)->0;
                let k = choose|k: int| 0 <= k < own.len() && own[k] == fault;
                if path[0] == 1 {
                    assert(all[k] == fault);
                } else {
                    assert(all[l.len() + k] == fault);
                }
            },
            _ => {
                tail_is_blamed(part, rest);
            },
        }
    }
}

proof fn bindings_add(s: Checked, binds: Seq<ValueBinding>, m: nat, n: nat)
    requires
        m <= n <= binds.len(),
        checked_bindings(s, binds, n) is Some,
    ensures
        checked_bindings(s, binds, m) is Some,
        adds_to(checked_bindings(s, binds, m)->0, checked_bindings(s, binds, n)->0),
    decreases n,
{
    let t = checked_bindings(s, binds, n)->0;
    adds_to_self(t, t.uninitialized);
    if m < n {
        bindings_add(s, binds, m, (n - 1) as nat);
        let before = checked_bindings(s, binds, (n - 1) as nat)->0;
        let bind = binds[n - 1];
        let after = checked(before, bind.expr)->0;
        checked_adds_uses(before, bind.expr);
        checked_binding_adds(after, before.uses.len(), bind.name, bind.expr);
        adds_to_trans(before, after, t);
        adds_to_trans(checked_bindings(s, binds, m)->0, before, t);
    }
}

/// A value that uses itself, outside of a lambda, has to construct something: each expression that
/// the value may end with and that does not is a fault.
pub proof fn recursive_values_construct(
    s: Checked,
    expr: SpannedExpr,
    i: int,
    to_use: Seq<int>,
    to_tail: Seq<int>,
    name: Seq<char>,
)
    requires
        checked(s, expr) is Some,
        expr.value matches Expr::LetBindings(binds, _) && bound_once(binds@, i, name) && (eager_at(
            binds@[i].expr,
            to_use,
        ) matches Some(part) && (part.value matches Expr::Ident(id) && id.name@ == name)) && (
        tail_at(binds@[i].expr, to_tail) matches Some(last) && !has_tail(last) && !constructs(
            last,
        )),
    ensures
        expr.value matches Expr::LetBindings(binds, _) && checked(s, expr)->0.faults.contains(
            Fault::LastExprMustBeConstructor((tail_at(binds@[i].expr, to_tail)->0).span),
        ),
{
    if let Expr::LetBindings(binds, body) = expr.value {
        let start = Checked {
            uninitialized: s.uninitialized.union(value_names(binds@, binds@.len())),
            ..s
        };
        let mid = checked_bindings(start, binds@, binds@.len())->0;
        let t = checked(s, expr)->0;
        let bind = binds@[i];
        let fault = Fault::LastExprMustBeConstructor((tail_at(bind.expr, to_tail)->0).span);
        values_are_named(binds@, binds@.len(), i, name);
        let c = bindings_step(start, binds@, binds@.len(), i);
        bindings_keep(start, binds@, i as nat, name);
        let k = use_counts(c.0, bind.expr, to_use, name);
        assert(c.1.uses[k].name == name);
        bindings_add(start, binds@, (i + 1) as nat, binds@.len());
        let next = checked_bindings(start, binds@, (i + 1) as nat)->0;
        assert(checked_binding(c.1, c.0.uses.len(), bind.name, bind.expr) == Some(next));
        assert(any_use(c.1.uses, c.0.uses.len(), name));
        let faults = tail_faults(bind.expr)->0;
        assert(next.faults == c.1.faults + faults);
        tail_is_blamed(bind.expr, to_tail);
        let at = choose|at: int| 0 <= at < faults.len() && faults[at] == fault;
        assert(next.faults[c.1.faults.len() + at] == fault);
        checked_adds_uses(mid, *body);
        fault_stays(next, mid, fault);
        fault_stays(mid, t, fault);
    }
}

} // verus!
