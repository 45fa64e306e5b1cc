//! Each identifier of an expression that has a type is noted.

use vstd::prelude::*;
use crate::ast::{
    Alternative, Expr, ExprField, Pattern, PatternField, PatternTypeField, SpannedExpr,
    SpannedIdent, SpannedPattern, TypeBinding, ValueBinding,
};
use crate::pos::Span;
use crate::resolve::{expanded, resolved};
use crate::typecheck::fill::{
    all_places, alt_places, binding_places, ident_places, name_places, pattern_places, places,
    value_places, Place,
};
use crate::typecheck::infer::{
    access_checked, accessed, all_functions, alts_checked, arg_checked, args_checked, as_function,
    bindings_checked, block_checked, bodies_checked, body_checked, checked, declared_type,
    elems_checked, expr_inferred, fields_checked, functions_merged, lambda_args, lambda_checked,
    merged_with, names_of, operator_checked, record_finished, record_types, reported, scoped_name,
    signature, signatures, types_declared, types_renamed, value_checked, Called,
};
use crate::typecheck::intersect::{
    bindings_intersected, intersected, met_keeps, name_intersected, names_bound, names_intersected,
    Meeting,
};
use crate::typecheck::kinds::types_kinded;
use crate::typecheck::model::{
    bind_all, declare, field_type, finished, finished_notes, finished_values, found, fresh,
    generalized, generics_in, greatest_name, instantiated, instantiated_more, named_all, next_arg,
    quantified, record_with, unify, variables_in, DeclaredTy, Inferred, Known, NextArg,
};
use crate::typecheck::pattern::{
    bound_fields, bound_name, bound_types, fresh_fields, generic_types, known_fields, pattern_args,
    pattern_checked, pattern_field_names, record_for, record_pattern, shorter, type_field_name,
    fields_of, unknown_fields,
};
use crate::typecheck::settle::{refreshed, renamed, settled};
use crate::typecheck::table::{last_at, latest};
use crate::types::{app_ty, TypeVariable};
use crate::types::model::{FieldTy, GenericTy, Ty};
use crate::types::rows::{row_fields, type_fields};
use crate::types::walk::new_or;

verus! {

/// From `s` to `after` nothing was reported and no identifier was met.
pub open spec fn quiet(s: Inferred, after: Inferred) -> bool {
    after.reports == s.reports && after.notes.len() == s.notes.len()
}

/// From `s` to `after`, unless something was reported, `n` identifiers were met.
pub open spec fn met(s: Inferred, after: Inferred, n: nat) -> bool {
    &&& s.reports.len() <= after.reports.len()
    &&& s.reports.len() == after.reports.len() ==> after.notes.len() == s.notes.len() + n
}

proof fn named_all_quiet(s: Inferred, names: Seq<Seq<char>>, n: nat)
    ensures
        named_all(s, names, n) matches Some(after) ==> quiet(s, after),
    decreases n,
{
    if 0 < n <= names.len() {
        named_all_quiet(s, names, (n - 1) as nat);
    }
}

proof fn instantiated_more_quiet(s: Inferred, t: Ty)
    ensures
        instantiated_more(s, t) matches Some((after, _)) ==> quiet(s, after),
{
    let names = generics_in(t, Seq::empty());
    named_all_quiet(s, names, names.len());
}

proof fn instantiated_quiet(s: Inferred, t: Ty)
    ensures
        instantiated(s, t) matches Some((after, _)) ==> quiet(s, after),
{
    instantiated_more_quiet(Inferred { named: Seq::empty(), ..s }, t);
}

proof fn found_quiet(known: Known, s: Inferred, name: Seq<char>)
    ensures
        found(known, s, name) matches Some((after, _)) ==> quiet(s, after),
{
    let bound = match latest(s.values, name) {
        Some(t) => Some(t),
        None => if known.types.dom().contains(name) {
            Some(known.types[name])
        } else {
            None
        },
    };
    if let Some(t) = bound {
        if let Some(t) = settled(s.subst, Seq::empty(), t) {
            instantiated_quiet(s, t);
        }
    }
}

proof fn quantified_quiet(
    s: Inferred,
    level: u32,
    prefix: Seq<char>,
    vars: Seq<TypeVariable>,
    n: nat,
)
    ensures
        quantified(s, level, prefix, vars, n) matches Some((after, _)) ==> after.reports
            == s.reports && after.notes == s.notes && after.values == s.values,
    decreases n,
{
    if 0 < n <= vars.len() {
        quantified_quiet(s, level, prefix, vars, (n - 1) as nat);
    }
}

proof fn finished_quiet(s: Inferred, level: u32, t: Ty)
    ensures
        finished(s, level, t) matches Some((after, _)) ==> after.reports == s.reports
            && after.notes == s.notes && after.values == s.values,
{
    let prefix = greatest_name(s.named, s.named.len());
    if let Some(u) = settled(s.subst, Seq::empty(), t) {
        let vars = variables_in(u, Seq::empty());
        quantified_quiet(s, level, prefix, vars, vars.len());
    }
}

proof fn finished_values_quiet(s: Inferred, level: u32, n: nat)
    ensures
        finished_values(s, level, n) matches Some(after) ==> quiet(s, after),
    decreases n,
{
    if 0 < n <= s.values.len() {
        finished_values_quiet(s, level, (n - 1) as nat);
        if let Some(t) = finished_values(s, level, (n - 1) as nat) {
            if n <= t.values.len() {
                finished_quiet(t, level, t.values[n - 1].1);
            }
        }
    }
}

proof fn finished_notes_quiet(s: Inferred, level: u32, from: nat, n: nat)
    ensures
        finished_notes(s, level, from, n) matches Some(after) ==> quiet(s, after),
    decreases n,
{
    if 0 < n && from + n <= s.notes.len() {
        finished_notes_quiet(s, level, from, (n - 1) as nat);
        if let Some(t) = finished_notes(s, level, from, (n - 1) as nat) {
            if from + n <= t.notes.len() {
                finished_quiet(t, level, t.notes[from + n - 1].1);
            }
        }
    }
}

proof fn generalized_quiet(s: Inferred, level: u32, from: nat)
    ensures
        generalized(s, level, from) matches Some(after) ==> quiet(s, after),
{
    finished_values_quiet(s, level, s.values.len());
    if let Some(t) = finished_values(s, level, s.values.len()) {
        if from <= t.notes.len() {
            finished_notes_quiet(t, level, from, (t.notes.len() - from) as nat);
        }
    }
}

proof fn name_intersected_quiet(s: Inferred, level: u32, name: Seq<char>)
    ensures
        name_intersected(s, level, name) matches Some(after) ==> quiet(s, after),
{
    if let Some(i) = last_at(s.values, name, s.values.len()) {
        if let Some(j) = last_at(s.values, name, i as nat) {
            let (l, r) = (
                settled(s.subst, Seq::empty(), s.values[j].1),
                settled(s.subst, Seq::empty(), s.values[i].1),
            );
            if let (Some(l), Some(r)) = (l, r) {
                met_keeps(Meeting { s, pairs: Seq::empty() }, l, r);
            }
            if let Some((s2, t)) = intersected(s, s.values[j].1, s.values[i].1) {
                finished_quiet(s2, level, t);
            }
        }
    }
}

proof fn names_intersected_quiet(
    s: Inferred,
    level: u32,
    names: Seq<Option<Seq<char>>>,
    n: nat,
)
    ensures
        names_intersected(s, level, names, n) matches Some(after) ==> quiet(s, after),
    decreases n,
{
    if 0 < n <= names.len() {
        names_intersected_quiet(s, level, names, (n - 1) as nat);
        if let (Some(s2), Some(name)) = (
            names_intersected(s, level, names, (n - 1) as nat),
            names[n - 1],
        ) {
            name_intersected_quiet(s2, level, name);
        }
    }
}

proof fn bindings_intersected_quiet(
    s: Inferred,
    level: u32,
    bindings: Seq<ValueBinding>,
    n: nat,
)
    ensures
        bindings_intersected(s, level, bindings, n) matches Some(after) ==> quiet(s, after),
    decreases n,
{
    if 0 < n <= bindings.len() {
        bindings_intersected_quiet(s, level, bindings, (n - 1) as nat);
        if let Some(s2) = bindings_intersected(s, level, bindings, (n - 1) as nat) {
            let names = names_bound(bindings[n - 1].name);
            names_intersected_quiet(s2, level, names, names.len());
        }
    }
}

proof fn bind_all_quiet(s: Inferred, fields: Seq<FieldTy>, n: nat)
    ensures
        quiet(s, bind_all(s, fields, n)),
    decreases n,
{
    if 0 < n <= fields.len() {
        bind_all_quiet(s, fields, (n - 1) as nat);
    }
}

proof fn declare_quiet(s: Inferred, name: Seq<char>, declared: DeclaredTy)
    ensures
        quiet(s, declare(s, name, declared)),
{
    let fields = row_fields(declared.actual);
    bind_all_quiet(s, fields, fields.len());
}

proof fn types_renamed_quiet(known: Known, s: Inferred, bindings: Seq<TypeBinding>, n: nat)
    ensures
        quiet(s, types_renamed(known, s, bindings, n)),
    decreases n,
{
    if 0 < n <= bindings.len() {
        types_renamed_quiet(known, s, bindings, (n - 1) as nat);
    }
}

proof fn types_declared_met(
    known: Known,
    s: Inferred,
    bindings: Seq<TypeBinding>,
    params: Seq<Seq<GenericTy>>,
    span: Span,
    n: nat,
)
    ensures
        met(s, types_declared(known, s, bindings, params, span, n), 0),
    decreases n,
{
    if 0 < n <= bindings.len() {
        types_declared_met(known, s, bindings, params, span, (n - 1) as nat);
        let before = types_declared(known, s, bindings, params, span, (n - 1) as nat);
        let id = scoped_name(known.module, bindings[n - 1].name.value@);
        let data = bindings[n - 1].alias.value@;
        let declared = DeclaredTy {
            typ: app_ty(
                Ty::Ident(id),
                generic_types(data.params),
            ),
            params: params[n - 1],
            actual: refreshed(before.renames, data.typ),
        };
        declare_quiet(before, id, declared);
    }
}

proof fn pattern_args_met(s: Inferred, args: Seq<SpannedPattern>, i: int, t: Ty)
    requires
        0 <= i <= args.len(),
    ensures
        match pattern_args(s, args, i, t) {
            Some((after, Ok(_))) => after.reports == s.reports && after.notes.len()
                == s.notes.len() + (args.len() - i),
            Some((after, Err(_))) => after.reports == s.reports,
            None => true,
        },
    decreases args.len() - i,
{
    if i < args.len() {
        if let (Ty::Function(_, arg, ret), Some(name)) = (t, bound_name(args[i])) {
            pattern_args_met(s.bind(name, *arg).note(name, *arg), args, i + 1, *ret);
        }
    }
}

proof fn known_fields_quiet(known: Known, s: Inferred, t: Ty, fields: Seq<PatternField>, n: nat)
    ensures
        match known_fields(known, s, t, fields, n) {
            Some((after, Ok(types))) => quiet(s, after) && (n <= fields.len() ==> types.len() == n),
            Some((after, Err(_))) => quiet(s, after),
            None => true,
        },
    decreases n,
{
    if 0 < n <= fields.len() {
        known_fields_quiet(known, s, t, fields, (n - 1) as nat);
    }
}

proof fn fresh_fields_quiet(s: Inferred, names: Seq<Seq<char>>, n: nat)
    ensures
        fresh_fields(s, names, n) matches Some((after, _)) ==> quiet(s, after),
    decreases n,
{
    if 0 < n <= names.len() {
        fresh_fields_quiet(s, names, (n - 1) as nat);
    }
}

proof fn unknown_fields_quiet(known: Known, s: Inferred, t: Ty, fields: Seq<PatternField>)
    ensures
        unknown_fields(known, s, t, fields) matches Some((after, _)) ==> quiet(s, after),
{
    let names = pattern_field_names(fields);
    fresh_fields_quiet(s, names, names.len());
    if let Some((s2, typ, actual)) = record_for(known, s, names) {
        instantiated_more_quiet(s2, typ);
        if let Some((s3, typ)) = instantiated_more(s2, typ) {
            instantiated_more_quiet(s3, actual);
            if let Some((s4, actual)) = instantiated_more(s3, actual) {
                if let Some((s5, Ok(_))) = unify(known, s4, t, typ) {
                    known_fields_quiet(known, s5, actual, fields, fields.len());
                }
            }
        }
    }
}

proof fn bound_fields_met(s: Inferred, fields: Seq<PatternField>, types: Seq<Ty>, n: nat)
    requires
        n <= fields.len(),
        n <= types.len(),
    ensures
        bound_fields(s, fields, types, n) matches Some(after) ==> after.reports == s.reports
            && after.notes.len() == s.notes.len() + n,
    decreases n,
{
    if n > 0 {
        bound_fields_met(s, fields, types, (n - 1) as nat);
    }
}

proof fn bound_types_quiet(s: Inferred, t: Ty, types: Seq<PatternTypeField>, n: nat)
    ensures
        bound_types(s, t, types, n) matches Some((after, _)) ==> quiet(s, after),
    decreases n,
{
    if 0 < n <= types.len() {
        bound_types_quiet(s, t, types, (n - 1) as nat);
        if let Some((s2, Ok(()))) = bound_types(s, t, types, (n - 1) as nat) {
            let name = type_field_name(types[n - 1]);
            if let Some(Ty::Alias(alias)) = field_type(type_fields(t), name, 0) {
                let data = alias.data();
                let renamed = Inferred { renames: s2.renames.push((name, data.name)), ..s2 };
                let declared = DeclaredTy {
                    typ: app_ty(
                        Ty::Ident(data.name),
                        generic_types(data.params),
                    ),
                    params: data.params,
                    actual: data.typ,
                };
                declare_quiet(renamed, name, declared);
            }
        }
    }
}

proof fn record_pattern_met(
    known: Known,
    s: Inferred,
    types: Seq<PatternTypeField>,
    fields: Seq<PatternField>,
    t: Ty,
)
    ensures
        match record_pattern(known, s, types, fields, t) {
            Some((after, Ok(_))) => after.reports == s.reports && after.notes.len()
                == s.notes.len() + 1 + fields.len(),
            Some((after, Err(_))) => after.reports == s.reports,
            None => true,
        },
{
    let s1 = s.note(""@, t);
    let t1 = new_or(expanded(s1.infos(known), t), t);
    let matched = if t1 is Record {
        fields_of(t1, known_fields(known, s1, t1, fields, fields.len()))
    } else {
        unknown_fields(known, s1, t1, fields)
    };
    known_fields_quiet(known, s1, t1, fields, fields.len());
    unknown_fields_quiet(known, s1, t1, fields);
    if let Some((s2, Ok((record, field_types)))) = matched {
        let n = shorter(fields.len(), field_types.len());
        bound_fields_met(s2, fields, field_types, n);
        if let Some(s3) = bound_fields(s2, fields, field_types, n) {
            bound_types_quiet(s3.skip((fields.len() - n) as nat), record, types, types.len());
        }
    }
}

proof fn pattern_checked_met(known: Known, s: Inferred, pattern: SpannedPattern, t: Ty)
    ensures
        match pattern_checked(known, s, pattern, t) {
            Some((after, Ok(_))) => after.reports == s.reports && after.notes.len()
                == s.notes.len() + pattern_places(pattern).len(),
            Some((after, Err(_))) => after.reports == s.reports,
            None => true,
        },
{
    match pattern.value {
        Pattern::Constructor(id, args) => {
            found_quiet(known, s, id.name@);
            if let Some((s2, Ok(ctor))) = found(known, s, id.name@) {
                pattern_args_met(s2, args@, 0, ctor);
            }
        },
        Pattern::Record { typ: _, types, fields } => {
            record_pattern_met(known, s, types@, fields@, t);
        },
        _ => {},
    }
}

proof fn operator_met(known: Known, s: Inferred, name: Seq<char>, l: Ty, r: Ty)
    ensures
        match operator_checked(known, s, name, l, r) {
            Some((after, Ok(_))) => after.reports == s.reports && after.notes.len()
                == s.notes.len() + 1,
            Some((after, Err(_))) => after.reports == s.reports,
            None => true,
        },
{
    found_quiet(known, s, name);
}

proof fn access_met(known: Known, s: Inferred, t: Ty, field: Seq<char>)
    ensures
        match access_checked(known, s, t, field) {
            Some((after, Ok(_))) => after.reports == s.reports && after.notes.len()
                == s.notes.len() + 1,
            Some((after, Err(_))) => after.reports == s.reports,
            None => true,
        },
{
    if let Some((typ, _)) = record_with(known, s, seq![field]) {
        instantiated_quiet(s, typ);
    }
    if let Some((s2, Ok(t2))) = accessed(known, s, t, field) {
        if let Some(record) = resolved(s2.infos(known), t2) {
            if let Some(typ) = field_type(row_fields(record), field, 0) {
                instantiated_quiet(s2, typ);
            }
        }
    }
}

proof fn lambda_args_met(
    known: Known,
    s: Inferred,
    args: Seq<SpannedIdent>,
    i: int,
    t: Ty,
    types: Seq<Ty>,
)
    requires
        0 <= i <= args.len(),
    ensures
        lambda_args(known, s, args, i, t, types) matches Some((after, _)) ==> after.reports
            == s.reports && after.notes.len() == s.notes.len() + (args.len() - i),
    decreases args.len() - i,
{
    if i < args.len() {
        let name = args[i].value.name@;
        match next_arg(s.infos(known), t) {
            Some(NextArg::Arg(arg, rest)) => {
                let s2 = s.note(name, arg).bind(name, arg);
                lambda_args_met(known, s2, args, i + 1, rest, types.push(arg));
            },
            Some(NextArg::Unknown(rest)) => {
                if let Some((s2, arg)) = fresh(s) {
                    let s3 = s2.note(name, arg).bind(name, arg);
                    lambda_args_met(known, s3, args, i + 1, rest, types.push(arg));
                }
            },
            _ => {},
        }
    }
}

proof fn record_finished_met(
    known: Known,
    s: Inferred,
    types: Seq<FieldTy>,
    fields: Seq<FieldTy>,
)
    ensures
        match record_finished(known, s, types, fields) {
            Some((after, Ok(_))) => after.reports == s.reports && after.notes.len()
                == s.notes.len() + 1,
            Some((after, Err(_))) => after.reports == s.reports,
            None => true,
        },
{
    let names = names_of(fields);
    if let Some((typ, actual)) = record_with(known, s, names) {
        instantiated_quiet(s, typ);
        if let Some((s2, _)) = instantiated(s, typ) {
            instantiated_more_quiet(s2, actual);
        }
    }
}

proof fn signature_quiet(known: Known, s: Inferred, binding: ValueBinding)
    ensures
        signature(known, s, binding) matches Some((after, _)) ==> quiet(s, after),
{
    if let (Some((s2, _)), Some(declared)) = (fresh(s), binding.typ) {
        instantiated_quiet(
            s2,
            refreshed(s2.renames, declared.typ@),
        );
    }
}

proof fn signatures_met(known: Known, s: Inferred, bindings: Seq<ValueBinding>, n: nat)
    ensures
        match signatures(known, s, bindings, n) {
            Some((after, Ok(_))) => after.reports == s.reports && after.notes.len()
                == s.notes.len() + name_places(bindings, n).len(),
            Some((after, Err(_))) => after.reports == s.reports,
            None => true,
        },
    decreases n,
{
    if 0 < n <= bindings.len() {
        signatures_met(known, s, bindings, (n - 1) as nat);
        if let Some((s2, Ok(_))) = signatures(known, s, bindings, (n - 1) as nat) {
            signature_quiet(known, s2, bindings[n - 1]);
            if let Some((s3, Ok(t))) = signature(known, s2, bindings[n - 1]) {
                pattern_checked_met(known, s3, bindings[n - 1].name, t);
            }
        }
    }
}

proof fn functions_merged_quiet(
    known: Known,
    s: Inferred,
    bound: Seq<Ty>,
    types: Seq<Ty>,
    n: nat,
)
    ensures
        functions_merged(known, s, bound, types, n) matches Some((after, _)) ==> quiet(s, after),
    decreases n,
{
    if 0 < n && n <= bound.len() && n <= types.len() {
        functions_merged_quiet(known, s, bound, types, (n - 1) as nat);
    }
}

proof fn checked_met(known: Known, s: Inferred, expr: SpannedExpr)
    ensures
        checked(known, s, expr) matches Some((after, _)) ==> met(s, after, places(expr).len()),
    decreases expr, 3nat,
{
    match expr.value {
        Expr::LetBindings(bindings, body) => {
            bindings_met(known, s, bindings@);
            if let Some((s2, Ok(()))) = bindings_checked(known, s, bindings@) {
                checked_met(known, s2, *body);
            }
            let_met(known, s, expr);
        },
        Expr::TypeBindings(bindings, body) => {
            let entered = types_renamed(known, s.enter(), bindings@, bindings@.len());
            if let Some(Ok(params)) = types_kinded(known, entered, bindings@) {
                let declared = types_declared(
                    known,
                    entered,
                    bindings@,
                    params,
                    body.span,
                    bindings@.len(),
                );
                checked_met(known, declared, *body);
            }
            types_met(known, s, expr);
        },
        _ => {
            value_met(known, s, expr);
            other_met(known, s, expr);
        },
    }
}

/// How many identifiers were met in a `let` follows from its parts.
#[verifier::spinoff_prover]
#[verifier::rlimit(50)]
proof fn let_met(known: Known, s: Inferred, expr: SpannedExpr)
    requires
        expr.value matches Expr::LetBindings(bindings, body) && match bindings_checked(
            known,
            s,
            bindings@,
        ) {
            Some((after, Ok(()))) => met(
                s,
                after,
                if all_functions(bindings@) {
                    name_places(bindings@, bindings@.len()).len() + binding_places(
                        bindings@,
                        false,
                        bindings@.len(),
                    ).len()
                } else {
                    binding_places(bindings@, true, bindings@.len()).len()
                },
            ) && (checked(known, after, *body) matches Some((last, _)) ==> met(
                after,
                last,
                places(*body).len(),
            )),
            Some((after, Err(_))) => s.reports.len() <= after.reports.len(),
            None => true,
        },
    ensures
        checked(known, s, expr) matches Some((after, _)) ==> met(s, after, places(expr).len()),
{
}

/// How many identifiers were met in an expression that declares types follows from its body.
proof fn types_met(known: Known, s: Inferred, expr: SpannedExpr)
    requires
        expr.value matches Expr::TypeBindings(bindings, body) && {
            let entered = types_renamed(known, s.enter(), bindings@, bindings@.len());
            types_kinded(known, entered, bindings@) matches Some(Ok(params)) ==> {
                let declared = types_declared(
                    known,
                    entered,
                    bindings@,
                    params,
                    body.span,
                    bindings@.len(),
                );
                checked(known, declared, *body) matches Some((last, _)) ==> met(
                    declared,
                    last,
                    places(*body).len(),
                )
            }
        },
    ensures
        checked(known, s, expr) matches Some((after, _)) ==> met(s, after, places(expr).len()),
{
    if let Expr::TypeBindings(bindings, body) = expr.value {
        let entered = types_renamed(known, s.enter(), bindings@, bindings@.len());
        types_renamed_quiet(known, s.enter(), bindings@, bindings@.len());
        if let Some(Ok(params)) = types_kinded(known, entered, bindings@) {
            types_declared_met(known, entered, bindings@, params, body.span, bindings@.len());
        }
    }
}

/// How many identifiers were met in another expression follows from its value.
proof fn other_met(known: Known, s: Inferred, expr: SpannedExpr)
    requires
        !(expr.value is LetBindings),
        !(expr.value is TypeBindings),
        match value_checked(known, s, expr.value) {
            Some((after, Ok(_))) => met(s, after, places(expr).len()),
            Some((after, Err(_))) => s.reports.len() <= after.reports.len(),
            None => true,
        },
    ensures
        checked(known, s, expr) matches Some((after, _)) ==> met(s, after, places(expr).len()),
{
}

#[verifier::rlimit(40)]
proof fn value_met(known: Known, s: Inferred, expr: SpannedExpr)
    requires
        !(expr.value is LetBindings),
        !(expr.value is TypeBindings),
    ensures
        match value_checked(known, s, expr.value) {
            Some((after, Ok(_))) => met(s, after, places(expr).len()),
            Some((after, Err(_))) => s.reports.len() <= after.reports.len(),
            None => true,
        },
    decreases expr, 2nat,
{
    match expr.value {
        Expr::Ident(id) => {
            found_quiet(
                known,
                s,
                renamed(s.renames, id.name@),
            );
        },
        Expr::App(func, args) => {
            checked_met(known, s, *func);
            if let Some((s2, t)) = checked(known, s, *func) {
                args_met(known, s2, args@, args@.len(), t);
            }
        },
        Expr::IfElse(pred, yes, no) => {
            checked_met(known, s, *pred);
            if let Some((s2, p)) = checked(known, s, *pred) {
                if let Some((s3, Ok(_))) = unify(known, s2, known.bool_type, p) {
                    checked_met(known, s3, *yes);
                    if let Some((s4, _)) = checked(known, s3, *yes) {
                        checked_met(known, s4, *no);
                    }
                }
            }
        },
        Expr::Infix(lhs, op, rhs) => {
            checked_met(known, s, *lhs);
            if let Some((s2, l)) = checked(known, s, *lhs) {
                checked_met(known, s2, *rhs);
                if let Some((s3, r)) = checked(known, s2, *rhs) {
                    operator_met(known, s3, op.value.name@, l, r);
                }
            }
        },
        Expr::Match(value, alts) => {
            checked_met(known, s, *value);
            if let Some((s2, t)) = checked(known, s, *value) {
                alts_met(known, s2, alts@, alts@.len(), t);
            }
        },
        Expr::Projection(value, field, _) => {
            checked_met(known, s, *value);
            if let Some((s2, t)) = checked(known, s, *value) {
                access_met(known, s2, t, field@);
            }
        },
        Expr::Array(_, elems) => {
            if let Some((s2, var)) = fresh(s) {
                elems_met(known, s2, elems@, elems@.len(), var);
            }
        },
        Expr::Lambda(lambda) => {
            if let Some((s2, var)) = fresh(s) {
                lambda_met(known, s2, var, lambda.args@, *lambda.body);
            }
        },
        Expr::Record { typ: _, types, exprs, base: _ } => {
            fields_met(known, s, exprs@, exprs@.len());
            if let (Ok(types), Some((s2, Ok(fields)))) = (
                record_types(known, s, types@, types@.len()),
                fields_checked(known, s, exprs@, exprs@.len()),
            ) {
                record_finished_met(known, s2, types, fields);
            }
        },
        Expr::Block(exprs) => {
            block_met(known, s, exprs@, exprs@.len());
        },
        _ => {},
    }
}

proof fn args_met(known: Known, s: Inferred, args: Seq<SpannedExpr>, n: nat, t: Ty)
    ensures
        match args_checked(known, s, args, n, t) {
            Some((after, Ok(Called::Returns(_)))) => met(s, after, all_places(args, n).len()),
            Some((after, Ok(Called::Left(_)))) => s.reports.len() < after.reports.len(),
            Some((after, Err(_))) => s.reports.len() <= after.reports.len(),
            None => true,
        },
    decreases args, n,
{
    if 0 < n <= args.len() {
        args_met(known, s, args, (n - 1) as nat, t);
        if let Some((s2, Ok(Called::Returns(func)))) = args_checked(
            known,
            s,
            args,
            (n - 1) as nat,
            t,
        ) {
            assert(decreases_to!(args => args[n - 1]));
            arg_met(known, s2, args[n - 1], func);
        }
    }
}

proof fn arg_met(known: Known, s: Inferred, arg: SpannedExpr, t: Ty)
    ensures
        match arg_checked(known, s, arg, t) {
            Some((after, Ok(Called::Returns(_)))) => met(s, after, places(arg).len()),
            Some((after, Ok(Called::Left(_)))) => s.reports.len() < after.reports.len(),
            Some((after, Err(_))) => s.reports.len() <= after.reports.len(),
            None => true,
        },
    decreases arg, 4nat,
{
    if let Some((s2, Ok(Ty::Function(_, arg_type, _)))) = as_function(known, s, t) {
        checked_met(known, s2, arg);
        if let Some((s3, given)) = checked(known, s2, arg) {
            if let Some((s4, Err(fault))) = unify(known, s3, *arg_type, given) {
                assert(s4.reports == s3.reports);
                if let Some((s5, _)) = reported(s4, arg.span, fault) {
                    assert(s5.reports.len() == s4.reports.len() + 1);
                }
            }
        }
    }
}

#[verifier::spinoff_prover]
#[verifier::rlimit(60)]
proof fn alts_met(known: Known, s: Inferred, alts: Seq<Alternative>, n: nat, t: Ty)
    ensures
        match alts_checked(known, s, alts, n, t) {
            Some((after, Ok(_))) => met(s, after, alt_places(alts, n).len()),
            Some((after, Err(_))) => s.reports.len() <= after.reports.len(),
            None => true,
        },
    decreases alts, n,
{
    if 0 < n <= alts.len() {
        alts_met(known, s, alts, (n - 1) as nat, t);
        if let Some((s2, Ok(_))) = alts_checked(known, s, alts, (n - 1) as nat, t) {
            assert(decreases_to!(alts => alts[n - 1]));
            let alt = alts[n - 1];
            pattern_checked_met(known, s2.enter(), alt.pattern, t);
            if let Some((s3, Ok(_))) = pattern_checked(known, s2.enter(), alt.pattern, t) {
                checked_met(known, s3, alt.expr);
            }
        }
    }
}

proof fn elems_met(known: Known, s: Inferred, elems: Seq<SpannedExpr>, n: nat, t: Ty)
    ensures
        match elems_checked(known, s, elems, n, t) {
            Some((after, Ok(_))) => met(s, after, all_places(elems, n).len()),
            Some((after, Err(_))) => s.reports.len() <= after.reports.len(),
            None => true,
        },
    decreases elems, n,
{
    if 0 < n <= elems.len() {
        elems_met(known, s, elems, (n - 1) as nat, t);
        if let Some((s2, Ok(_))) = elems_checked(known, s, elems, (n - 1) as nat, t) {
            assert(decreases_to!(elems => elems[n - 1]));
            checked_met(known, s2, elems[n - 1]);
        }
    }
}

proof fn lambda_met(
    known: Known,
    s: Inferred,
    t: Ty,
    args: Seq<SpannedIdent>,
    body: SpannedExpr,
)
    ensures
        lambda_checked(known, s, t, args, body) matches Some((after, _)) ==> met(
            s,
            after,
            ident_places(args).len() + places(body).len(),
        ),
    decreases body, 4nat,
{
    lambda_args_met(known, s.enter(), args, 0, t, Seq::empty());
    if let Some((s2, _)) = lambda_args(known, s.enter(), args, 0, t, Seq::empty()) {
        checked_met(known, s2, body);
    }
}

proof fn fields_met(known: Known, s: Inferred, fields: Seq<ExprField>, n: nat)
    ensures
        match fields_checked(known, s, fields, n) {
            Some((after, Ok(_))) => met(s, after, value_places(fields, n).len()),
            Some((after, Err(_))) => s.reports.len() <= after.reports.len(),
            None => true,
        },
    decreases fields, n,
{
    if 0 < n <= fields.len() {
        fields_met(known, s, fields, (n - 1) as nat);
        if let Some((s2, Ok(_))) = fields_checked(known, s, fields, (n - 1) as nat) {
            assert(decreases_to!(fields => fields[n - 1]));
            match fields[n - 1].value {
                Some(value) => {
                    checked_met(known, s2, value);
                },
                None => {
                    found_quiet(known, s2, fields[n - 1].name.value@);
                },
            }
        }
    }
}

proof fn block_met(known: Known, s: Inferred, exprs: Seq<SpannedExpr>, n: nat)
    ensures
        block_checked(known, s, exprs, n) matches Some((after, _)) ==> met(
            s,
            after,
            all_places(exprs, n).len(),
        ),
    decreases exprs, n,
{
    if 0 < n <= exprs.len() {
        assert(decreases_to!(exprs => exprs[n - 1]));
        if n == 1 {
            checked_met(known, s, exprs[0]);
            assert(all_places(exprs, 0) =~= Seq::<Option<Place>>::empty());
        } else {
            block_met(known, s, exprs, (n - 1) as nat);
            if let Some((s2, _)) = block_checked(known, s, exprs, (n - 1) as nat) {
                checked_met(known, s2, exprs[n - 1]);
            }
        }
    }
}

proof fn body_met(known: Known, s: Inferred, declared: Option<Ty>, binding: ValueBinding)
    ensures
        match body_checked(known, s, declared, binding) {
            Some((after, Ok(_))) => met(
                s,
                after,
                ident_places(binding.args@).len() + places(binding.expr).len(),
            ),
            Some((after, Err(_))) => s.reports.len() <= after.reports.len(),
            None => true,
        },
    decreases binding, 5nat,
{
    if binding.args@.len() > 0 {
        match declared {
            Some(t) => {
                lambda_met(known, s, t, binding.args@, binding.expr);
            },
            None => {
                if let Some((s2, var)) = fresh(s) {
                    lambda_met(known, s2, var, binding.args@, binding.expr);
                }
            },
        }
    } else {
        checked_met(known, s, binding.expr);
    }
}

#[verifier::rlimit(30)]
proof fn bodies_met(
    known: Known,
    s: Inferred,
    level: u32,
    recursive: bool,
    bindings: Seq<ValueBinding>,
    n: nat,
)
    ensures
        match bodies_checked(known, s, level, recursive, bindings, n) {
            Some((after, Ok(_))) => met(s, after, binding_places(bindings, !recursive, n).len()),
            Some((after, Err(_))) => s.reports.len() <= after.reports.len(),
            None => true,
        },
    decreases bindings, n,
{
    if 0 < n <= bindings.len() {
        bodies_met(known, s, level, recursive, bindings, (n - 1) as nat);
        if let Some((s2, Ok(_))) = bodies_checked(
            known,
            s,
            level,
            recursive,
            bindings,
            (n - 1) as nat,
        ) {
            let binding = bindings[n - 1];
            assert(decreases_to!(bindings => bindings[n - 1]));
            let declared = declared_type(s2, recursive, binding);
            body_met(known, s2, declared, binding);
            if let Some((s3, Ok(t))) = body_checked(known, s2, declared, binding) {
                if let Some((s4, Ok(t))) = merged_with(known, s3, declared, t) {
                    assert(quiet(s3, s4));
                    if !recursive {
                        generalized_quiet(s4, level, s2.notes.len());
                        if let Some(s5) = generalized(s4, level, s2.notes.len()) {
                            pattern_checked_met(known, s5, binding.name, t);
                        }
                    }
                }
            }
        }
    }
}

proof fn bindings_met(known: Known, s: Inferred, bindings: Seq<ValueBinding>)
    ensures
        match bindings_checked(known, s, bindings) {
            Some((after, Ok(_))) => met(
                s,
                after,
                if all_functions(bindings) {
                    name_places(bindings, bindings.len()).len() + binding_places(
                        bindings,
                        false,
                        bindings.len(),
                    ).len()
                } else {
                    binding_places(bindings, true, bindings.len()).len()
                },
            ),
            Some((after, Err(_))) => s.reports.len() <= after.reports.len(),
            None => true,
        },
    decreases bindings, bindings.len() + 1,
{
    if s.subst.len() <= u32::MAX {
        let level = s.subst.len() as u32;
        let recursive = all_functions(bindings);
        signatures_met(known, s.enter(), bindings, bindings.len());
        let bound = if recursive {
            signatures(known, s.enter(), bindings, bindings.len())
        } else {
            Some((s.enter(), Ok(Seq::empty())))
        };
        if let Some((s2, Ok(bound))) = bound {
            bodies_met(known, s2, level, recursive, bindings, bindings.len());
            if let Some((s3, Ok(types))) = bodies_checked(
                known,
                s2,
                level,
                recursive,
                bindings,
                bindings.len(),
            ) {
                functions_merged_quiet(known, s3, bound, types, bound.len());
                if let Some((s4, Ok(()))) = functions_merged(known, s3, bound, types, bound.len()) {
                    generalized_quiet(s4, level, s.notes.len());
                    if let Some(s5) = generalized(s4, level, s.notes.len()) {
                        bindings_intersected_quiet(s5, level, bindings, bindings.len());
                    }
                }
            }
        }
    }
}

/// If an expression has a type each of its identifiers is noted, in order.
pub proof fn identifiers_are_noted(known: Known, s: Inferred, expr: SpannedExpr)
    ensures
        expr_inferred(known, s, expr) matches Some((after, Some(_))) ==> after.notes.len() == places(
            expr,
        ).len(),
{
    let start = Inferred {
        subst: Seq::empty(),
        levels: Seq::empty(),
        values: Seq::empty(),
        notes: Seq::empty(),
        ..s
    };
    checked_met(known, start, expr);
    if let Some((s2, t)) = checked(known, start, expr) {
        finished_quiet(s2, 0, t);
        if let Some((s3, _)) = finished(s2, 0, t) {
            generalized_quiet(s3, 0, 0);
        }
    }
}

} // verus!
