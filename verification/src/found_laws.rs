//! What is found at a position is there.

use vstd::prelude::*;
use crate::ast::{
    Alternative, AstType, Expr, ExprField, Pattern, PatternField, PatternTypeField, SpannedExpr,
    SpannedIdent, SpannedPattern, TypeBinding, ValueBinding,
};
use crate::completion::{
    completed, entries, entry_spans, expr_spans, passed, passed_all, passed_alternatives,
    passed_fields, passed_inside, passed_pattern, passed_patterns, passed_values, record_spans,
    searched, searched_alternative, searched_binding, searched_entry, searched_one,
    searched_pattern, searched_record, searched_type, searched_type_binding, searched_types,
    searched_value, see_aliases, see_bindings, see_idents, see_params, select, valued, Entry,
    Search, Seen, Spot,
};
use crate::pos::{BytePos, Containment};
use crate::types::model::{GenericTy, Ty};

verus! {

/// A name, a literal or a pattern for a name that was found holds the position.
pub open spec fn holds_position(found: Option<Option<Spot>>, pos: BytePos) -> bool {
    match found {
        Some(Some(Spot::Expr(expr))) => expr.value is Ident || expr.value is Literal
            ==> expr.span.contains(pos) == Containment::Equal,
        Some(Some(Spot::Pattern(pattern))) => pattern.value is Ident ==> pattern.span.contains(pos)
            == Containment::Equal,
        _ => true,
    }
}

proof fn seeing_finds_nothing(
    s: Search,
    params: Seq<GenericTy>,
    idents: Seq<SpannedIdent>,
    binds: Seq<ValueBinding>,
    n: nat,
)
    ensures
        see_params(s, params, n).found == s.found,
        see_idents(s, idents, n).found == s.found,
        see_bindings(s, binds, n).found == s.found,
    decreases n,
{
    if n > 0 {
        seeing_finds_nothing(s, params, idents, binds, (n - 1) as nat);
    }
}

proof fn aliases_find_nothing(s: Search, binds: Seq<TypeBinding>, n: nat)
    ensures
        see_aliases(s, binds, n) matches Some(t) ==> t.found == s.found,
    decreases n,
{
    if n > 0 && n <= binds.len() {
        aliases_find_nothing(s, binds, (n - 1) as nat);
    }
}

proof fn type_holds(s: Search, pos: BytePos, typ: AstType)
    requires
        holds_position(s.found, pos),
    ensures
        holds_position(searched_type(s, pos, typ).found, pos),
    decreases typ, 1nat,
{
    types_hold(s, pos, typ.parts@, typ.parts@.len());
    if let Ty::Forall(params, _) = typ.typ@ {
        seeing_finds_nothing(s, params, Seq::empty(), Seq::empty(), params.len());
        types_hold(see_params(s, params, params.len()), pos, typ.parts@, typ.parts@.len());
    }
}

proof fn types_hold(s: Search, pos: BytePos, types: Seq<AstType>, n: nat)
    requires
        holds_position(s.found, pos),
    ensures
        holds_position(searched_types(s, pos, types, n).found, pos),
    decreases types, n,
{
    if n > 0 && n <= types.len() {
        types_hold(s, pos, types, (n - 1) as nat);
        type_holds(searched_types(s, pos, types, (n - 1) as nat), pos, types[n - 1]);
    }
}

proof fn pattern_holds(s: Search, pos: BytePos, pattern: SpannedPattern)
    requires
        holds_position(s.found, pos),
    ensures
        searched_pattern(s, pos, pattern) matches Some(t) ==> holds_position(t.found, pos),
    decreases pattern, 1nat,
{
    let t = if pattern.span.contains(pos) == Containment::Equal {
        s.enclose(Spot::Pattern(pattern))
    } else {
        s
    };
    match pattern.value {
        Pattern::As(_, inner) => pattern_holds(t, pos, *inner),
        Pattern::Constructor(_, args) => {
            let i = select(crate::completion::pattern_spans(args@), pos).1;
            if i is Some && 0 <= i->0 < args@.len() {
                assert(decreases_to!(args@ => args@[i->0]));
                pattern_holds(t, pos, args@[i->0]);
            }
        },
        Pattern::Record { typ, types, fields } => {
            let all = entries(types@, fields@, 0, 0);
            let i = select(entry_spans(types@, fields@, all), pos).1;
            if i is Some {
                entry_holds(t, pos, typ@, types@, fields@, all[i->0]);
            }
        },
        Pattern::Tuple { typ: _, elems } => {
            let i = select(crate::completion::pattern_spans(elems@), pos).1;
            if i is Some && 0 <= i->0 < elems@.len() {
                assert(decreases_to!(elems@ => elems@[i->0]));
                pattern_holds(t, pos, elems@[i->0]);
            }
        },
        _ => {},
    }
}

proof fn entry_holds(
    s: Search,
    pos: BytePos,
    typ: Ty,
    types: Seq<PatternTypeField>,
    fields: Seq<PatternField>,
    entry: Entry,
)
    requires
        holds_position(s.found, pos),
    ensures
        searched_entry(s, pos, typ, types, fields, entry) matches Some(t) ==> holds_position(
            t.found,
            pos,
        ),
    decreases fields, 0nat,
{
    if let Entry::Field(j) = entry {
        if 0 <= j < fields.len() {
            if let Some(pattern) = fields[j].value {
                assert(decreases_to!(fields => fields[j]));
                pattern_holds(s, pos, pattern);
            }
        }
    }
}

proof fn passed_pattern_holds(s: Search, pos: BytePos, pattern: SpannedPattern)
    requires
        holds_position(s.found, pos),
    ensures
        passed_pattern(s, pos, pattern) matches Some(t) ==> holds_position(t.found, pos),
    decreases pattern, 2nat,
{
    pattern_holds(s, pos, pattern);
    let t = s.see(Seen::Pattern(pattern));
    match pattern.value {
        Pattern::As(_, inner) => passed_pattern_holds(t, pos, *inner),
        Pattern::Constructor(_, args) => passed_patterns_hold(t, pos, args@, args@.len()),
        Pattern::Record { typ: _, types: _, fields } => {
            passed_fields_hold(t, pos, fields@, fields@.len());
        },
        Pattern::Tuple { typ: _, elems } => passed_patterns_hold(t, pos, elems@, elems@.len()),
        _ => {},
    }
}

proof fn passed_patterns_hold(s: Search, pos: BytePos, patterns: Seq<SpannedPattern>, n: nat)
    requires
        holds_position(s.found, pos),
    ensures
        passed_patterns(s, pos, patterns, n) matches Some(t) ==> holds_position(t.found, pos),
    decreases patterns, n,
{
    if n > 0 && n <= patterns.len() {
        passed_patterns_hold(s, pos, patterns, (n - 1) as nat);
        if let Some(t) = passed_patterns(s, pos, patterns, (n - 1) as nat) {
            passed_pattern_holds(t, pos, patterns[n - 1]);
        }
    }
}

proof fn passed_fields_hold(s: Search, pos: BytePos, fields: Seq<PatternField>, n: nat)
    requires
        holds_position(s.found, pos),
    ensures
        passed_fields(s, pos, fields, n) matches Some(t) ==> holds_position(t.found, pos),
    decreases fields, n,
{
    if n > 0 && n <= fields.len() {
        passed_fields_hold(s, pos, fields, (n - 1) as nat);
        if let Some(t) = passed_fields(s, pos, fields, (n - 1) as nat) {
            if let Some(pattern) = fields[n - 1].value {
                passed_pattern_holds(t, pos, pattern);
            }
        }
    }
}

proof fn passed_holds(s: Search, pos: BytePos, expr: SpannedExpr)
    requires
        holds_position(s.found, pos),
    ensures
        passed(s, pos, expr) matches Some(t) ==> holds_position(t.found, pos),
    decreases expr, 3nat,
{
    expr_holds(s, pos, expr);
    passed_inside_holds(s, pos, expr);
}

proof fn passed_all_hold(s: Search, pos: BytePos, exprs: Seq<SpannedExpr>, n: nat)
    requires
        holds_position(s.found, pos),
    ensures
        passed_all(s, pos, exprs, n) matches Some(t) ==> holds_position(t.found, pos),
    decreases exprs, n,
{
    if n > 0 && n <= exprs.len() {
        passed_all_hold(s, pos, exprs, (n - 1) as nat);
        if let Some(t) = passed_all(s, pos, exprs, (n - 1) as nat) {
            passed_holds(t, pos, exprs[n - 1]);
        }
    }
}

proof fn passed_alternatives_hold(s: Search, pos: BytePos, alts: Seq<Alternative>, n: nat)
    requires
        holds_position(s.found, pos),
    ensures
        passed_alternatives(s, pos, alts, n) matches Some(t) ==> holds_position(t.found, pos),
    decreases alts, n,
{
    if n > 0 && n <= alts.len() {
        passed_alternatives_hold(s, pos, alts, (n - 1) as nat);
        if let Some(t) = passed_alternatives(s, pos, alts, (n - 1) as nat) {
            passed_pattern_holds(t, pos, alts[n - 1].pattern);
            if let Some(u) = passed_pattern(t, pos, alts[n - 1].pattern) {
                passed_holds(u, pos, alts[n - 1].expr);
            }
        }
    }
}

proof fn passed_values_hold(s: Search, pos: BytePos, fields: Seq<ExprField>, n: nat)
    requires
        holds_position(s.found, pos),
    ensures
        passed_values(s, pos, fields, n) matches Some(t) ==> holds_position(t.found, pos),
    decreases fields, n,
{
    if n > 0 && n <= fields.len() {
        passed_values_hold(s, pos, fields, (n - 1) as nat);
        if let Some(t) = passed_values(s, pos, fields, (n - 1) as nat) {
            if let Some(expr) = fields[n - 1].value {
                passed_holds(t, pos, expr);
            }
        }
    }
}

#[verifier::rlimit(30)]
proof fn passed_inside_holds(s: Search, pos: BytePos, expr: SpannedExpr)
    requires
        holds_position(s.found, pos),
    ensures
        passed_inside(s, pos, expr) matches Some(t) ==> holds_position(t.found, pos),
    decreases expr, 1nat,
{
    match expr.value {
        Expr::TypeBindings(binds, body) => {
            aliases_find_nothing(s, binds@, binds@.len());
            if let Some(t) = see_aliases(s, binds@, binds@.len()) {
                expr_holds(t, pos, *body);
            }
        },
        Expr::LetBindings(binds, body) => {
            seeing_finds_nothing(s, Seq::empty(), Seq::empty(), binds@, binds@.len());
            expr_holds(see_bindings(s, binds@, binds@.len()), pos, *body);
        },
        Expr::App(func, args) => {
            passed_holds(s, pos, *func);
            if let Some(t) = passed(s, pos, *func) {
                passed_all_hold(t, pos, args@, args@.len());
            }
        },
        Expr::IfElse(pred, if_true, if_false) => {
            passed_holds(s, pos, *pred);
            if let Some(t) = passed(s, pos, *pred) {
                passed_holds(t, pos, *if_true);
                if let Some(u) = passed(t, pos, *if_true) {
                    passed_holds(u, pos, *if_false);
                }
            }
        },
        Expr::Match(value, alts) => {
            passed_holds(s, pos, *value);
            if let Some(t) = passed(s, pos, *value) {
                passed_alternatives_hold(t, pos, alts@, alts@.len());
            }
        },
        Expr::Infix(l, _, r) => {
            passed_holds(s, pos, *l);
            if let Some(t) = passed(s, pos, *l) {
                passed_holds(t, pos, *r);
            }
        },
        Expr::Projection(value, _, _) => passed_holds(s, pos, *value),
        Expr::Array(_, exprs) => passed_all_hold(s, pos, exprs@, exprs@.len()),
        Expr::Record { typ: _, types: _, exprs, base } => {
            passed_values_hold(s, pos, exprs@, exprs@.len());
            if let Some(t) = passed_values(s, pos, exprs@, exprs@.len()) {
                if let Some(base) = base {
                    passed_holds(t, pos, *base);
                }
            }
        },
        Expr::Lambda(lambda) => passed_holds(s, pos, *lambda.body),
        Expr::Tuple { typ: _, elems } => passed_all_hold(s, pos, elems@, elems@.len()),
        Expr::Block(exprs) => passed_all_hold(s, pos, exprs@, exprs@.len()),
        Expr::Do(do_expr) => {
            passed_holds(s, pos, *do_expr.bound);
            if let Some(t) = passed(s, pos, *do_expr.bound) {
                passed_holds(t, pos, *do_expr.body);
            }
        },
        _ => {},
    }
}

proof fn one_holds(s: Search, pos: BytePos, exprs: Seq<SpannedExpr>)
    requires
        holds_position(s.found, pos),
    ensures
        searched_one(s, pos, exprs) matches Some(t) ==> holds_position(t.found, pos),
    decreases exprs, 0nat,
{
    let i = select(expr_spans(exprs), pos).1;
    if i is Some && 0 <= i->0 < exprs.len() {
        expr_holds(s, pos, exprs[i->0]);
    }
}

proof fn alternative_holds(s: Search, pos: BytePos, alt: Alternative)
    requires
        holds_position(s.found, pos),
    ensures
        searched_alternative(s, pos, alt) matches Some(t) ==> holds_position(t.found, pos),
    decreases alt, 0nat,
{
    let t = s.see(Seen::Pattern(alt.pattern));
    pattern_holds(t, pos, alt.pattern);
    expr_holds(t, pos, alt.expr);
}

proof fn binding_holds(s: Search, pos: BytePos, bind: ValueBinding)
    requires
        holds_position(s.found, pos),
    ensures
        searched_binding(s, pos, bind) matches Some(t) ==> holds_position(t.found, pos),
    decreases bind, 0nat,
{
    let t = see_idents(s, bind.args@, bind.args@.len());
    seeing_finds_nothing(s, Seq::empty(), bind.args@, Seq::empty(), bind.args@.len());
    pattern_holds(t, pos, bind.name);
    if let Some(typ) = bind.typ {
        type_holds(t, pos, typ);
    }
    expr_holds(t, pos, bind.expr);
}

proof fn type_binding_holds(s: Search, pos: BytePos, bind: TypeBinding)
    requires
        holds_position(s.found, pos),
    ensures
        holds_position(searched_type_binding(s, pos, bind).found, pos),
{
    let params = bind.alias.value@.params;
    seeing_finds_nothing(s, params, Seq::empty(), Seq::empty(), params.len());
    type_holds(see_params(s, params, params.len()), pos, bind.aliased_type);
}

proof fn record_holds(s: Search, pos: BytePos, expr: SpannedExpr)
    requires
        holds_position(s.found, pos),
    ensures
        searched_record(s, pos, expr) matches Some(t) ==> holds_position(t.found, pos),
    decreases expr, 1nat,
{
    if let Expr::Record { typ: _, types: _, exprs, base } = expr.value {
        let i = select(record_spans(exprs@, base), pos).1;
        let values = valued(exprs@, 0);
        if i is Some {
            if 0 <= i->0 < values.len() {
                value_holds(s, pos, exprs@, values[i->0]);
            } else if let Some(base) = base {
                expr_holds(s, pos, *base);
            }
        }
    }
}

proof fn value_holds(s: Search, pos: BytePos, fields: Seq<ExprField>, i: int)
    requires
        holds_position(s.found, pos),
    ensures
        searched_value(s, pos, fields, i) matches Some(t) ==> holds_position(t.found, pos),
    decreases fields, 0nat,
{
    if 0 <= i < fields.len() {
        if let Some(expr) = fields[i].value {
            assert(decreases_to!(fields => fields[i]));
            expr_holds(s, pos, expr);
        }
    }
}

#[verifier::rlimit(40)]
proof fn expr_holds(s: Search, pos: BytePos, expr: SpannedExpr)
    requires
        holds_position(s.found, pos),
    ensures
        searched(s, pos, expr) matches Some(t) ==> holds_position(t.found, pos),
    decreases expr, 2nat,
{
    passed_inside_holds(s, pos, expr);
    let t = s.enclose(Spot::Expr(expr));
    match expr.value {
        Expr::App(func, args) => {
            expr_holds(t, pos, *func);
            let i = select(seq![func.span] + expr_spans(args@), pos).1;
            if i is Some && 1 <= i->0 <= args@.len() {
                assert(decreases_to!(args@ => args@[i->0 - 1]));
                expr_holds(t, pos, args@[i->0 - 1]);
            }
        },
        Expr::IfElse(pred, if_true, if_false) => {
            expr_holds(t, pos, *pred);
            expr_holds(t, pos, *if_true);
            expr_holds(t, pos, *if_false);
        },
        Expr::Match(value, alts) => {
            expr_holds(t.enclose(Spot::Expr(*value)), pos, *value);
            let i = select(
                seq![value.span] + crate::completion::alternative_spans(alts@),
                pos,
            ).1;
            if i is Some && 1 <= i->0 <= alts@.len() {
                assert(decreases_to!(alts@ => alts@[i->0 - 1]));
                alternative_holds(t, pos, alts@[i->0 - 1]);
            }
        },
        Expr::Infix(l, _, r) => {
            expr_holds(t, pos, *l);
            expr_holds(t, pos, *r);
        },
        Expr::LetBindings(binds, body) => {
            let u = see_bindings(t, binds@, binds@.len());
            seeing_finds_nothing(t, Seq::empty(), Seq::empty(), binds@, binds@.len());
            expr_holds(u, pos, *body);
            let i = select(crate::completion::binding_spans(binds@), pos).1;
            if i is Some && 0 <= i->0 < binds@.len() {
                assert(decreases_to!(binds@ => binds@[i->0]));
                binding_holds(u, pos, binds@[i->0]);
            }
        },
        Expr::TypeBindings(binds, body) => {
            aliases_find_nothing(t, binds@, binds@.len());
            if let Some(u) = see_aliases(t, binds@, binds@.len()) {
                expr_holds(u, pos, *body);
                let i = select(
                    crate::completion::type_binding_spans(binds@) + seq![body.span],
                    pos,
                ).1;
                if i is Some && 0 <= i->0 < binds@.len() {
                    type_binding_holds(u, pos, binds@[i->0]);
                }
            }
        },
        Expr::Projection(value, _, _) => expr_holds(t, pos, *value),
        Expr::Array(_, exprs) => one_holds(t, pos, exprs@),
        Expr::Record { .. } => record_holds(t, pos, expr),
        Expr::Lambda(lambda) => {
            let u = see_idents(t, lambda.args@, lambda.args@.len());
            seeing_finds_nothing(t, Seq::empty(), lambda.args@, Seq::empty(), lambda.args@.len());
            expr_holds(u, pos, *lambda.body);
        },
        Expr::Tuple { typ: _, elems } => one_holds(t, pos, elems@),
        Expr::Block(exprs) => one_holds(t, pos, exprs@),
        Expr::Do(do_expr) => {
            expr_holds(t, pos, *do_expr.bound);
            expr_holds(t, pos, *do_expr.body);
        },
        _ => {},
    }
}

/// What is found is there: a name, a literal or a pattern for a name that the search finds holds the
/// position that was searched for.
pub proof fn found_is_there(expr: SpannedExpr, pos: BytePos)
    ensures
        completed(expr, pos) matches Some(search) ==> holds_position(search.found, pos),
{
    let start = Search { found: None, enclosing: Seq::empty(), seen: Seq::empty() };
    expr_holds(start, pos, expr);
}

} // verus!
