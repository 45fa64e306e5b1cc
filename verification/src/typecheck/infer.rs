//! The inference of the types of expressions.

use vstd::prelude::*;
use crate::ast::{
    Alternative, Expr, ExprField, ExprTypeField, Literal, Pattern, SpannedExpr, SpannedIdent,
    TypeBinding, ValueBinding,
};
use crate::pos::Span;
use crate::resolve::{resolved, TypeEnv};
use crate::substitution::actual;
use crate::symbol::{last_part, Symbol};
use crate::text::{begins, join, starts_with};
use crate::typecheck::intersect::bindings_intersected;
use crate::typecheck::fill::{fill, places, refilled, same_but_types, same_itself};
use crate::typecheck::model::{
    declare, field_type, finished, found, fresh, generalized, instantiated, instantiated_more,
    next_arg, record_with, type_info, unify, DeclaredTy, Inferred, Known, NextArg, Outcome,
    TypeFault,
};
use crate::typecheck::names::{first_of, name_view, unknown_name};
use crate::typecheck::noted::identifiers_are_noted;
use crate::typecheck::pattern::{generic_types, no_name, pattern_checked, to_generic_types};
use crate::typecheck::kinds::{groups_view, types_kinded, value_kinded};
use crate::typecheck::rename::uses_resolved;
use crate::typecheck::settle::{refreshed, renamed};
use crate::typecheck::state::{field_of, step_is, Declared, TypeError, Typecheck};
use crate::typecheck::table::latest;
use crate::types::model::{parts_decrease, AliasDataTy, AliasTy, FieldTy, GenericTy, Ty};
use crate::types::rows::{row_fields, row_rest};
use crate::types::{
    app_ty, fields_view, function_ty, record_ty, symbols_view, type_fields_view, types_view, Alias,
    AliasData, ArcType, ArgType, BuiltinType, Field, Generic, Type, TypeField,
};

verus! {

/// `fault` is reported at `span`, and a new variable stands for the type.
pub open spec fn reported(s: Inferred, span: Span, fault: TypeFault) -> Option<(Inferred, Ty)> {
    match fresh(s) {
        Some((s, var)) => Some((s.report(span, fault), var)),
        None => None,
    }
}

pub open spec fn literal_type(literal: Literal) -> Ty {
    match literal {
        Literal::Byte(_) => Ty::Builtin(BuiltinType::Byte),
        Literal::Int(_) => Ty::Builtin(BuiltinType::Int),
        Literal::Float(_) => Ty::Builtin(BuiltinType::Float),
        Literal::String(_) => Ty::Builtin(BuiltinType::String),
        Literal::Char(_) => Ty::Builtin(BuiltinType::Char),
    }
}

pub open spec fn unit_ty() -> Ty {
    Ty::Record(Box::new(Ty::EmptyRow))
}

/// A function from two of `arg` to `ret`.
pub open spec fn binary(arg: Ty, ret: Ty) -> Ty {
    function_ty(ArgType::Explicit, seq![arg, arg], ret)
}

/// The type that a built in operator works on, and the operator without it.
pub open spec fn builtin_operator(name: Seq<char>) -> Option<(Ty, Seq<char>)> {
    if begins(name, "Int"@) {
        Some((Ty::Builtin(BuiltinType::Int), name.skip(3)))
    } else if begins(name, "Float"@) {
        Some((Ty::Builtin(BuiltinType::Float), name.skip(5)))
    } else {
        None
    }
}

/// The operator `name`, which begins with `#`, between values of the types `l` and `r`.
pub open spec fn builtin_checked(
    known: Known,
    s: Inferred,
    name: Seq<char>,
    l: Ty,
    r: Ty,
) -> Outcome {
    match unify(known, s, l, r) {
        Some((s, Ok(arg))) => match builtin_operator(name.skip(1)) {
            None => None,
            Some((prim, op)) => match unify(known, s.note(name, binary(prim, prim)), prim, arg) {
                Some((s, Ok(t))) => if op == "+"@ || op == "-"@ || op == "*"@ || op == "/"@ {
                    Some((s, Ok(t)))
                } else if op == "=="@ || op == "<"@ {
                    Some((s, Ok(known.bool_type)))
                } else {
                    Some((s, Err(TypeFault::UndefinedVariable(name))))
                },
                other => other,
            },
        },
        other => other,
    }
}

/// The operator `name`, which is a function, between values of the types `l` and `r`.
pub open spec fn function_operator(
    known: Known,
    s: Inferred,
    name: Seq<char>,
    l: Ty,
    r: Ty,
) -> Outcome {
    match found(known, s, name) {
        Some((s, Ok(op))) => match fresh(s.note(name, op)) {
            None => None,
            Some((s, var)) => match unify(
                known,
                s,
                op,
                function_ty(ArgType::Explicit, seq![l, r], var),
            ) {
                Some((s, Ok(Ty::Function(_, _, rest)))) => match *rest {
                    Ty::Function(_, _, ret) => Some((s, Ok(*ret))),
                    _ => None,
                },
                Some((s, Ok(_))) => None,
                other => other,
            },
        },
        other => other,
    }
}

/// The operator `name` between values of the types `l` and `r`.
pub open spec fn operator_checked(
    known: Known,
    s: Inferred,
    name: Seq<char>,
    l: Ty,
    r: Ty,
) -> Outcome {
    if name.len() > 0 && name[0] == '#' {
        builtin_checked(known, s, name, l, r)
    } else if name == "&&"@ || name == "||"@ {
        match unify(known, s, l, r) {
            Some((s, Ok(_))) => unify(
                known,
                s.note(name, binary(known.bool_type, known.bool_type)),
                known.bool_type,
                l,
            ),
            other => other,
        }
    } else {
        function_operator(known, s, name, l, r)
    }
}

/// A record type of which nothing but the field `field` is known, and the type of the field.
pub open spec fn open_record(s: Inferred, field: Seq<char>) -> Option<(Inferred, Ty, Ty)> {
    match fresh(s) {
        None => None,
        Some((s, typ)) => match fresh(s) {
            None => None,
            Some((s, rest)) => Some(
                (s, record_ty(Seq::empty(), seq![FieldTy { name: field, typ }], rest), typ),
            ),
        },
    }
}

/// The type that the field `field` is looked for in: where nothing is known of `t` it is a record
/// type that is known to have the field, or else one of which nothing more is known.
pub open spec fn accessed(known: Known, s: Inferred, t: Ty, field: Seq<char>) -> Outcome {
    match actual(s.subst, t) {
        None => None,
        Some(t) => if t is Variable {
            match record_with(known, s, seq![field]) {
                None => match open_record(s, field) {
                    None => None,
                    Some((s, record, _)) => unify(known, s, record, t),
                },
                Some((typ, _)) => match instantiated(s, typ) {
                    None => None,
                    Some((s, typ)) => unify(known, s, typ, t),
                },
            }
        } else {
            Some((s, Ok(t)))
        },
    }
}

/// The field `field` of a value of the type `t`. Where more may be known of the record later, it
/// has the field then.
pub open spec fn access_checked(known: Known, s: Inferred, t: Ty, field: Seq<char>) -> Outcome {
    match accessed(known, s, t, field) {
        Some((s, Ok(t))) => match resolved(s.infos(known), t) {
            None => None,
            Some(record) => if record is Record {
                match field_type(row_fields(record), field, 0) {
                    None => if row_rest(record) is Variable {
                        match open_record(s, field) {
                            None => None,
                            Some((s, wanted, typ)) => match unify(known, s, wanted, t) {
                                Some((s, Ok(_))) => Some((s.note(field, typ), Ok(typ))),
                                other => other,
                            },
                        }
                    } else {
                        Some((s, Err(TypeFault::UndefinedField(t, field))))
                    },
                    Some(typ) => match instantiated(s, typ) {
                        None => None,
                        Some((s, typ)) => Some((s.note(field, typ), Ok(typ))),
                    },
                }
            } else {
                Some((s, Err(TypeFault::InvalidFieldAccess(record))))
            },
        },
        other => other,
    }
}

/// Binds the arguments from `i` on to the arguments of the function type `t`.
pub open spec fn lambda_args(
    known: Known,
    s: Inferred,
    args: Seq<SpannedIdent>,
    i: int,
    t: Ty,
    types: Seq<Ty>,
) -> Option<(Inferred, Seq<Ty>)>
    decreases args.len() - i,
{
    match next_arg(s.infos(known), t) {
        None => None,
        Some(NextArg::Stop) => Some((s.skip((args.len() - i) as nat), types)),
        Some(NextArg::Arg(arg, rest)) => if i < 0 || i >= args.len() {
            Some((s, types))
        } else {
            let name = args[i].value.name@;
            lambda_args(
                known,
                s.note(name, arg).bind(name, arg),
                args,
                i + 1,
                rest,
                types.push(arg),
            )
        },
        Some(NextArg::Unknown(rest)) => match fresh(s) {
            None => None,
            Some((s, arg)) => if i < 0 || i >= args.len() {
                Some((s, types))
            } else {
                let name = args[i].value.name@;
                lambda_args(
                    known,
                    s.note(name, arg).bind(name, arg),
                    args,
                    i + 1,
                    rest,
                    types.push(arg),
                )
            },
        },
    }
}

/// The associated types of a record.
pub open spec fn record_types(
    known: Known,
    s: Inferred,
    types: Seq<ExprTypeField>,
    n: nat,
) -> Result<
    Seq<FieldTy>,
    TypeFault,
>
    decreases n,
{
    if n == 0 || n > types.len() {
        Ok(Seq::empty())
    } else {
        match record_types(known, s, types, (n - 1) as nat) {
            Ok(before) => {
                let name = renamed(s.renames, types[n - 1].name.value@);
                match type_info(known, s, name) {
                    None => Err(TypeFault::UndefinedType(name)),
                    Some(alias) => {
                        let data = AliasDataTy {
                            name,
                            params: alias.data().params,
                            typ: alias.data().typ,
                            is_implicit: false,
                        };
                        Ok(
                            before.push(
                                FieldTy {
                                    name: last_part(name),
                                    typ: Ty::Alias(AliasTy { index: 0, group: seq![data] }),
                                },
                            ),
                        )
                    },
                }
            },
            other => other,
        }
    }
}

pub open spec fn names_of(fields: Seq<FieldTy>) -> Seq<Seq<char>> {
    fields.map_values(|field: FieldTy| field.name)
}

/// The record with `types` and `fields`, or the record type that has its fields.
pub open spec fn record_finished(
    known: Known,
    s: Inferred,
    types: Seq<FieldTy>,
    fields: Seq<FieldTy>,
) -> Outcome {
    let record = record_ty(types, fields, Ty::EmptyRow);
    match record_with(known, s, names_of(fields)) {
        None => Some((s.note(""@, record), Ok(record))),
        Some((typ, actual_type)) => match instantiated(s, typ) {
            None => None,
            Some((s, typ)) => match instantiated_more(s, actual_type) {
                None => None,
                Some((s, actual_type)) => match unify(known, s, record, actual_type) {
                    Some((s, Ok(_))) => Some((s.note(""@, typ), Ok(typ))),
                    other => other,
                },
            },
        },
    }
}

/// The name `name` in the module `module`.
pub open spec fn scoped_name(module: Seq<char>, name: Seq<char>) -> Seq<char> {
    module + "."@ + name
}

/// Gives the first `n` types that are declared a name in the module.
pub open spec fn types_renamed(
    known: Known,
    s: Inferred,
    bindings: Seq<TypeBinding>,
    n: nat,
) -> Inferred
    decreases n,
{
    if n == 0 || n > bindings.len() {
        s
    } else {
        let before = types_renamed(known, s, bindings, (n - 1) as nat);
        let name = bindings[n - 1].name.value@;
        Inferred {
            renames: before.renames.push((name, scoped_name(known.module, name))),
            ..before
        }
    }
}

/// The names in the module of the types that are declared.
pub open spec fn declared_names(known: Known, bindings: Seq<TypeBinding>) -> Seq<Seq<char>> {
    bindings.map_values(|binding: TypeBinding| scoped_name(known.module, binding.name.value@))
}

/// The first name in the first `n` types that are declared that is not known.
pub open spec fn unknown_in_bindings(
    known: Known,
    s: Inferred,
    bindings: Seq<TypeBinding>,
    n: nat,
) -> Option<Seq<char>>
    decreases n,
{
    if n == 0 || n > bindings.len() {
        None
    } else {
        first_of(
            unknown_in_bindings(known, s, bindings, (n - 1) as nat),
            unknown_name(
                s.infos(known),
                declared_names(known, bindings),
                refreshed(s.renames, bindings[n - 1].alias.value@.typ),
            ),
        )
    }
}

/// Brings the first `n` types that are declared into scope. Their parameters are `params`.
pub open spec fn types_declared(
    known: Known,
    s: Inferred,
    bindings: Seq<TypeBinding>,
    params: Seq<Seq<GenericTy>>,
    span: Span,
    n: nat,
) -> Inferred
    decreases n,
{
    if n == 0 || n > bindings.len() {
        s
    } else {
        let before = types_declared(known, s, bindings, params, span, (n - 1) as nat);
        let id = scoped_name(known.module, bindings[n - 1].name.value@);
        let data = bindings[n - 1].alias.value@;
        if latest(before.types, id) is Some {
            before.report(span, TypeFault::DuplicateTypeDefinition(id))
        } else {
            declare(
                before,
                id,
                DeclaredTy {
                    typ: app_ty(Ty::Ident(id), generic_types(data.params)),
                    params: params[n - 1],
                    actual: refreshed(before.renames, data.typ),
                },
            )
        }
    }
}

/// The types of `expr`.
pub open spec fn checked(known: Known, s: Inferred, expr: SpannedExpr) -> Option<(Inferred, Ty)>
    decreases expr, 3nat,
{
    match expr.value {
        Expr::LetBindings(bindings, body) => match bindings_checked(known, s, bindings@) {
            None => None,
            Some((s, Err(fault))) => reported(s, expr.span, fault),
            Some((s, Ok(()))) => match checked(known, s, *body) {
                None => None,
                Some((s, t)) => Some((s.exit(), t)),
            },
        },
        Expr::TypeBindings(bindings, body) => {
            let entered = types_renamed(known, s.enter(), bindings@, bindings@.len());
            match unknown_in_bindings(known, entered, bindings@, bindings@.len()) {
                Some(name) => reported(entered, expr.span, TypeFault::UndefinedType(name)),
                None => match types_kinded(known, entered, bindings@) {
                    None => None,
                    Some(Err(fault)) => reported(entered, expr.span, TypeFault::KindError(fault)),
                    Some(Ok(params)) => match checked(
                        known,
                        types_declared(
                            known,
                            entered,
                            bindings@,
                            params,
                            body.span,
                            bindings@.len(),
                        ),
                        *body,
                    ) {
                        None => None,
                        Some((s, t)) => Some((s.exit(), t)),
                    },
                },
            }
        },
        _ => match value_checked(known, s, expr.value) {
            None => None,
            Some((s, Ok(t))) => Some((s, t)),
            Some((s, Err(fault))) => reported(s, expr.span, fault),
        },
    }
}

pub open spec fn value_checked(known: Known, s: Inferred, expr: Expr) -> Outcome
    decreases expr, 2nat,
{
    match expr {
        Expr::Ident(id) => {
            let name = renamed(s.renames, id.name@);
            match found(known, s, name) {
                Some((s, Ok(t))) => Some((s.note(name, t), Ok(t))),
                other => other,
            }
        },
        Expr::Literal(literal) => Some((s, Ok(literal_type(literal)))),
        Expr::App(func, args) => match checked(known, s, *func) {
            None => None,
            Some((s, t)) => call_finished(args_checked(known, s, args@, args@.len(), t)),
        },
        Expr::IfElse(pred, yes, no) => match checked(known, s, *pred) {
            None => None,
            Some((s, p)) => match unify(known, s, known.bool_type, p) {
                Some((s, Ok(_))) => match checked(known, s, *yes) {
                    None => None,
                    Some((s, y)) => match checked(known, s, *no) {
                        None => None,
                        Some((s, n)) => unify(known, s, y, n),
                    },
                },
                other => other,
            },
        },
        Expr::Infix(lhs, op, rhs) => match checked(known, s, *lhs) {
            None => None,
            Some((s, l)) => match checked(known, s, *rhs) {
                None => None,
                Some((s, r)) => operator_checked(known, s, op.value.name@, l, r),
            },
        },
        Expr::Tuple { typ: _, elems } => if elems@.len() == 0 {
            Some((s, Ok(unit_ty())))
        } else {
            None
        },
        Expr::Match(expr, alts) => match checked(known, s, *expr) {
            None => None,
            Some((s, t)) => match alts_checked(known, s, alts@, alts@.len(), t) {
                None => None,
                Some((s, Err(fault))) => Some((s, Err(fault))),
                Some((s, Ok(None))) => Some((s, Err(TypeFault::EmptyCase))),
                Some((s, Ok(Some(t)))) => Some((s, Ok(t))),
            },
        },
        Expr::Projection(expr, field, _) => match checked(known, s, *expr) {
            None => None,
            Some((s, t)) => access_checked(known, s, t, field@),
        },
        Expr::Array(_, elems) => match fresh(s) {
            None => None,
            Some((s, var)) => match elems_checked(known, s, elems@, elems@.len(), var) {
                Some((s, Ok(t))) => {
                    let array = app_ty(Ty::Builtin(BuiltinType::Array), seq![t]);
                    Some((s.note(""@, array), Ok(array)))
                },
                other => other,
            },
        },
        Expr::Lambda(lambda) => match fresh(s) {
            None => None,
            Some((s, var)) => match lambda_checked(known, s, var, lambda.args@, *lambda.body) {
                None => None,
                Some((s, t)) => Some((s.note(lambda.id.name@, t), Ok(t))),
            },
        },
        Expr::Record { typ: _, types, exprs, base } => if base is Some {
            None
        } else {
            match record_types(known, s, types@, types@.len()) {
                Err(fault) => Some((s, Err(fault))),
                Ok(types) => match fields_checked(known, s, exprs@, exprs@.len()) {
                    None => None,
                    Some((s, Err(fault))) => Some((s, Err(fault))),
                    Some((s, Ok(fields))) => record_finished(known, s, types, fields),
                },
            }
        },
        Expr::Block(exprs) => block_checked(known, s, exprs@, exprs@.len()),
        _ => None,
    }
}

/// How far the arguments of a call have come.
pub enum Called {
    /// The function is applied to them, and this is the type of what it returns.
    Returns(Ty),
    /// One of them has another type than the function takes. The variable stands for the call.
    Left(Ty),
}

/// What comes of a call and its arguments.
pub type Call = Option<(Inferred, Result<Called, TypeFault>)>;

/// The type of a call, however far its arguments have come.
pub open spec fn call_finished(call: Call) -> Outcome {
    match call {
        Some((s, Ok(Called::Returns(t)))) => Some((s, Ok(t))),
        Some((s, Ok(Called::Left(var)))) => Some((s, Ok(var))),
        Some((s, Err(fault))) => Some((s, Err(fault))),
        None => None,
    }
}

/// A function of the type `t` applied to the first `n` of `args`.
pub open spec fn args_checked(
    known: Known,
    s: Inferred,
    args: Seq<SpannedExpr>,
    n: nat,
    t: Ty,
) -> Call
    decreases args, n,
{
    if n == 0 || n > args.len() {
        Some((s, Ok(Called::Returns(t))))
    } else {
        match args_checked(known, s, args, (n - 1) as nat, t) {
            Some((s, Ok(Called::Returns(func)))) => arg_checked(known, s, args[n - 1], func),
            other => other,
        }
    }
}

/// A function of the type `t` applied to `arg`. An argument of another type than the function takes is
/// reported where the argument stands, and the call is left.
pub open spec fn arg_checked(known: Known, s: Inferred, arg: SpannedExpr, t: Ty) -> Call
    decreases arg, 4nat,
{
    match as_function(known, s, t) {
        Some((s, Ok(Ty::Function(_, arg_type, ret)))) => match checked(known, s, arg) {
            None => None,
            Some((s, given)) => match unify(known, s, *arg_type, given) {
                Some((s, Ok(_))) => Some((s, Ok(Called::Returns(*ret)))),
                Some((s, Err(fault))) => match reported(s, arg.span, fault) {
                    Some((s, var)) => Some((s, Ok(Called::Left(var)))),
                    None => None,
                },
                None => None,
            },
        },
        Some((s, Ok(t))) => Some((s, Err(TypeFault::NotAFunction(t)))),
        Some((s, Err(fault))) => Some((s, Err(fault))),
        None => None,
    }
}

/// `t` unified with a function type.
pub open spec fn as_function(known: Known, s: Inferred, t: Ty) -> Outcome {
    match fresh(s) {
        None => None,
        Some((s, arg)) => match fresh(s) {
            None => None,
            Some((s, ret)) => unify(
                known,
                s,
                function_ty(ArgType::Explicit, seq![arg], ret),
                t,
            ),
        },
    }
}

/// The type of the first `n` alternatives for a value of the type `t`.
pub open spec fn alts_checked(
    known: Known,
    s: Inferred,
    alts: Seq<Alternative>,
    n: nat,
    t: Ty,
) -> Option<(Inferred, Result<Option<Ty>, TypeFault>)>
    decreases alts, n,
{
    if n == 0 || n > alts.len() {
        Some((s, Ok(None)))
    } else {
        match alts_checked(known, s, alts, (n - 1) as nat, t) {
            Some((s, Ok(expected))) => match pattern_checked(
                known,
                s.enter(),
                alts[n - 1].pattern,
                t,
            ) {
                None => None,
                Some((s, Err(fault))) => Some((s, Err(fault))),
                Some((s, Ok(_))) => match checked(known, s, alts[n - 1].expr) {
                    None => None,
                    Some((s, alt)) => match expected {
                        None => Some((s.exit(), Ok(Some(alt)))),
                        Some(expected) => match unify(known, s.exit(), expected, alt) {
                            None => None,
                            Some((s, Err(fault))) => Some((s, Err(fault))),
                            Some((s, Ok(t))) => Some((s, Ok(Some(t)))),
                        },
                    },
                },
            },
            other => other,
        }
    }
}

/// The type of the first `n` of `elems`, where `t` is expected.
pub open spec fn elems_checked(
    known: Known,
    s: Inferred,
    elems: Seq<SpannedExpr>,
    n: nat,
    t: Ty,
) -> Outcome
    decreases elems, n,
{
    if n == 0 || n > elems.len() {
        Some((s, Ok(t)))
    } else {
        match elems_checked(known, s, elems, (n - 1) as nat, t) {
            Some((s, Ok(expected))) => match checked(known, s, elems[n - 1]) {
                None => None,
                Some((s, elem)) => unify(known, s, expected, elem),
            },
            other => other,
        }
    }
}

/// The type of a function of the type `t` with `args` and `body`.
pub open spec fn lambda_checked(
    known: Known,
    s: Inferred,
    t: Ty,
    args: Seq<SpannedIdent>,
    body: SpannedExpr,
) -> Option<(Inferred, Ty)>
    decreases body, 4nat,
{
    match lambda_args(known, s.enter(), args, 0, t, Seq::empty()) {
        None => None,
        Some((s, types)) => match checked(known, s, body) {
            None => None,
            Some((s, ret)) => Some((s.exit(), function_ty(ArgType::Explicit, types, ret))),
        },
    }
}

/// The first `n` fields of a record.
pub open spec fn fields_checked(
    known: Known,
    s: Inferred,
    fields: Seq<ExprField>,
    n: nat,
) -> Option<
    (Inferred, Result<Seq<FieldTy>, TypeFault>),
>
    decreases fields, n,
{
    if n == 0 || n > fields.len() {
        Some((s, Ok(Seq::empty())))
    } else {
        match fields_checked(known, s, fields, (n - 1) as nat) {
            Some((s, Ok(before))) => {
                let name = fields[n - 1].name.value@;
                match fields[n - 1].value {
                    Some(expr) => match checked(known, s, expr) {
                        None => None,
                        Some((s, typ)) => Some((s, Ok(before.push(FieldTy { name, typ })))),
                    },
                    None => match found(known, s, name) {
                        None => None,
                        Some((s, Err(fault))) => Some((s, Err(fault))),
                        Some((s, Ok(typ))) => Some(
                            (s.note(name, typ), Ok(before.push(FieldTy { name, typ }))),
                        ),
                    },
                }
            },
            other => other,
        }
    }
}

/// The type of the last of the first `n` of `exprs`.
pub open spec fn block_checked(
    known: Known,
    s: Inferred,
    exprs: Seq<SpannedExpr>,
    n: nat,
) -> Outcome
    decreases exprs, n,
{
    if n == 0 || n > exprs.len() {
        None
    } else {
        let before = if n == 1 {
            Some(s)
        } else {
            match block_checked(known, s, exprs, (n - 1) as nat) {
                Some((s, _)) => Some(s),
                None => None,
            }
        };
        match before {
            None => None,
            Some(s) => match checked(known, s, exprs[n - 1]) {
                None => None,
                Some((s, t)) => Some((s, Ok(t))),
            },
        }
    }
}

/// All of `bindings` are functions, which may be recursive.
pub open spec fn all_functions(bindings: Seq<ValueBinding>) -> bool {
    forall|i: int| 0 <= i < bindings.len() ==> (#[trigger] bindings[i]).args@.len() > 0
}

/// Binds the names of the first `n` of `bindings`, which are functions, before their bodies are
/// known.
pub open spec fn signatures(
    known: Known,
    s: Inferred,
    bindings: Seq<ValueBinding>,
    n: nat,
) -> Option<
    (Inferred, Result<Seq<Ty>, TypeFault>),
>
    decreases n,
{
    if n == 0 || n > bindings.len() {
        Some((s, Ok(Seq::empty())))
    } else {
        match signatures(known, s, bindings, (n - 1) as nat) {
            Some((s, Ok(types))) => match signature(known, s, bindings[n - 1]) {
                None => None,
                Some((s, Err(fault))) => Some((s, Err(fault))),
                Some((s, Ok(t))) => match pattern_checked(known, s, bindings[n - 1].name, t) {
                    None => None,
                    Some((s, Err(fault))) => Some((s, Err(fault))),
                    Some((s, Ok(t))) => Some((s, Ok(types.push(t)))),
                },
            },
            other => other,
        }
    }
}

/// The type of a function before its body is known: what is declared, or a new variable.
pub open spec fn signature(known: Known, s: Inferred, binding: ValueBinding) -> Outcome {
    match fresh(s) {
        None => None,
        Some((s, var)) => match binding.typ {
            None => Some((s, Ok(var))),
            Some(declared) => {
                let t = refreshed(s.renames, declared.typ@);
                match unknown_name(s.infos(known), Seq::empty(), t) {
                    Some(name) => Some((s, Err(TypeFault::UndefinedType(name)))),
                    None => match value_kinded(s.infos(known), t) {
                        None => None,
                        Some(Err(fault)) => Some((s, Err(TypeFault::KindError(fault)))),
                        Some(Ok(_)) => match instantiated(s, t) {
                            None => None,
                            Some((s, declared)) => unify(known, s, declared, var),
                        },
                    },
                }
            },
        },
    }
}

/// The type that is declared for a binding.
pub open spec fn declared_type(s: Inferred, recursive: bool, binding: ValueBinding) -> Option<Ty> {
    match binding.typ {
        None => None,
        Some(declared) => Some(
            if recursive || binding.args@.len() == 0 {
                refreshed(s.renames, declared.typ@)
            } else {
                declared.typ@
            },
        ),
    }
}

/// A type and how far inference has come then.
pub open spec fn without_fault(step: Option<(Inferred, Ty)>) -> Outcome {
    match step {
        Some((s, t)) => Some((s, Ok(t))),
        None => None,
    }
}

/// What is wrong with a type that is declared for a value: its names have to be known, and its
/// kind has to be `Type`.
pub open spec fn wrong_type(infos: Map<Seq<char>, AliasTy>, t: Ty) -> Option<Option<TypeFault>> {
    match unknown_name(infos, Seq::empty(), t) {
        Some(name) => Some(Some(TypeFault::UndefinedType(name))),
        None => match value_kinded(infos, t) {
            None => None,
            Some(Err(fault)) => Some(Some(TypeFault::KindError(fault))),
            Some(Ok(_)) => Some(None),
        },
    }
}

/// The type of the value of `binding`. There may be nothing wrong with the type that is declared
/// for it.
pub open spec fn body_checked(
    known: Known,
    s: Inferred,
    declared: Option<Ty>,
    binding: ValueBinding,
) -> Outcome
    decreases binding, 5nat,
{
    if binding.args@.len() > 0 {
        match declared {
            Some(t) => without_fault(lambda_checked(known, s, t, binding.args@, binding.expr)),
            None => match fresh(s) {
                None => None,
                Some((s, var)) => without_fault(
                    lambda_checked(known, s, var, binding.args@, binding.expr),
                ),
            },
        }
    } else {
        let wrong = match declared {
            Some(t) => wrong_type(s.infos(known), t),
            None => Some(None),
        };
        match wrong {
            None => None,
            Some(Some(fault)) => Some((s, Err(fault))),
            Some(None) => without_fault(checked(known, s, binding.expr)),
        }
    }
}

/// A function that is the value of `binding` is called what it is bound to. It was met last.
pub open spec fn lambda_named(s: Inferred, binding: ValueBinding) -> Inferred {
    match (binding.expr.value, binding.name.value) {
        (Expr::Lambda(_), Pattern::Ident(id)) => if s.notes.len() > 0 {
            Inferred {
                notes: s.notes.update(s.notes.len() - 1, (id.name@, s.notes.last().1)),
                ..s
            }
        } else {
            s
        },
        _ => s,
    }
}

/// The types of the values of the first `n` of `bindings`. If they are not recursive they are bound.
pub open spec fn bodies_checked(
    known: Known,
    s: Inferred,
    level: u32,
    recursive: bool,
    bindings: Seq<ValueBinding>,
    n: nat,
) -> Option<(Inferred, Result<Seq<Ty>, TypeFault>)>
    decreases bindings, n,
{
    if n == 0 || n > bindings.len() {
        Some((s, Ok(Seq::empty())))
    } else {
        match bodies_checked(known, s, level, recursive, bindings, (n - 1) as nat) {
            Some((s, Ok(types))) => {
                let declared = declared_type(s, recursive, bindings[n - 1]);
                match body_checked(known, s, declared, bindings[n - 1]) {
                    None => None,
                    Some((after, Err(fault))) => Some((after, Err(fault))),
                    Some((after, Ok(t))) => match merged_with(known, after, declared, t) {
                        None => None,
                        Some((after, Err(fault))) => Some((after, Err(fault))),
                        Some((after, Ok(t))) => if recursive {
                            Some((lambda_named(after, bindings[n - 1]), Ok(types.push(t))))
                        } else {
                            match bound_value(
                                known,
                                after,
                                level,
                                s.notes.len(),
                                bindings[n - 1],
                                t,
                            ) {
                                None => None,
                                Some((after, Err(fault))) => Some((after, Err(fault))),
                                Some((after, Ok(_))) => Some((after, Ok(types.push(t)))),
                            }
                        },
                    },
                }
            },
            other => other,
        }
    }
}

/// The type `t` of a value merged with the type that is declared for it.
pub open spec fn merged_with(known: Known, s: Inferred, declared: Option<Ty>, t: Ty) -> Outcome {
    match declared {
        Some(declared) => unify(known, s, declared, t),
        None => Some((s, Ok(t))),
    }
}

/// Binds a value of the type `t`. What it leaves open becomes parameters first.
pub open spec fn bound_value(
    known: Known,
    s: Inferred,
    level: u32,
    from: nat,
    binding: ValueBinding,
    t: Ty,
) -> Outcome {
    match generalized(s, level, from) {
        None => None,
        Some(s) => pattern_checked(known, s, binding.name, t),
    }
}

/// Merges the first `n` of the types that functions were bound to with those of their bodies.
pub open spec fn functions_merged(
    known: Known,
    s: Inferred,
    bound: Seq<Ty>,
    types: Seq<Ty>,
    n: nat,
) -> Option<(Inferred, Result<(), TypeFault>)>
    decreases n,
{
    if n == 0 || n > bound.len() || n > types.len() {
        Some((s, Ok(())))
    } else {
        match functions_merged(known, s, bound, types, (n - 1) as nat) {
            Some((s, Ok(()))) => match unify(known, s, bound[n - 1], types[n - 1]) {
                None => None,
                Some((s, Err(fault))) => Some((s, Err(fault))),
                Some((s, Ok(_))) => Some((s, Ok(()))),
            },
            other => other,
        }
    }
}

/// Binds `bindings`, and makes parameters of what their types leave open. A name that was bound before
/// has the type that its bindings have in common.
pub open spec fn bindings_checked(known: Known, s: Inferred, bindings: Seq<ValueBinding>) -> Option<
    (Inferred, Result<(), TypeFault>),
>
    decreases bindings, bindings.len() + 1,
{
    if s.subst.len() > u32::MAX {
        None
    } else {
        let level = s.subst.len() as u32;
        let from = s.notes.len();
        let recursive = all_functions(bindings);
        let bound = if recursive {
            signatures(known, s.enter(), bindings, bindings.len())
        } else {
            Some((s.enter(), Ok(Seq::empty())))
        };
        match bound {
            None => None,
            Some((s, Err(fault))) => Some((s, Err(fault))),
            Some((s, Ok(bound))) => match bodies_checked(
                known,
                s,
                level,
                recursive,
                bindings,
                bindings.len(),
            ) {
                None => None,
                Some((s, Err(fault))) => Some((s, Err(fault))),
                Some((s, Ok(types))) => match functions_merged(
                    known,
                    s,
                    bound,
                    types,
                    bound.len(),
                ) {
                    None => None,
                    Some((s, Err(fault))) => Some((s, Err(fault))),
                    // Once all variables inside the bindings have been unified we can quantify them
                    Some((s, Ok(()))) => match generalized(s, level, from) {
                        None => None,
                        Some(s) => match bindings_intersected(s, level, bindings, bindings.len()) {
                            None => None,
                            Some(s) => Some((s, Ok(()))),
                        },
                    },
                },
            },
        }
    }
}

/// The type of `expr` as a whole, or nothing if something was reported. If it has one each use of a name
/// has to fit one of the bindings of the name.
pub open spec fn expr_checked(known: Known, s: Inferred, expr: SpannedExpr) -> Option<
    (Inferred, Option<Ty>),
> {
    match expr_inferred(known, s, expr) {
        Some((s, Some(t))) => match uses_resolved(
            known,
            Inferred { values: Seq::empty(), ..s },
            expr,
            0,
        ) {
            None => None,
            Some(s) => Some(
                (
                    s,
                    if s.reports.len() > 0 {
                        None
                    } else {
                        Some(t)
                    },
                ),
            ),
        },
        other => other,
    }
}

/// The type of `expr` as a whole, or nothing if something was reported, before uses are resolved.
pub open spec fn expr_inferred(known: Known, s: Inferred, expr: SpannedExpr) -> Option<
    (Inferred, Option<Ty>),
> {
    let start = Inferred {
        subst: Seq::empty(),
        levels: Seq::empty(),
        values: Seq::empty(),
        notes: Seq::empty(),
        ..s
    };
    match checked(known, start, expr) {
        None => None,
        Some((s, t)) => if s.reports.len() > 0 {
            Some((s, None))
        } else {
            match finished(s, 0, t) {
                None => None,
                Some((s, t)) => match generalized(s, 0, 0) {
                    None => None,
                    Some(s) => Some((s, Some(t))),
                },
            }
        },
    }
}

proof fn args_checked_before(
    known: Known,
    s: Inferred,
    args: Seq<SpannedExpr>,
    t: Ty,
    m: nat,
    n: nat,
)
    requires
        m <= n <= args.len(),
        args_checked(known, s, args, n, t) is Some,
    ensures
        args_checked(known, s, args, m, t) is Some,
        !((args_checked(known, s, args, m, t)->0).1 matches Ok(Called::Returns(_))) ==> args_checked(
            known,
            s,
            args,
            n,
            t,
        ) == args_checked(known, s, args, m, t),
    decreases n,
{
    if m < n {
        args_checked_before(known, s, args, t, m, (n - 1) as nat);
    }
}

proof fn alts_checked_before(
    known: Known,
    s: Inferred,
    alts: Seq<Alternative>,
    t: Ty,
    m: nat,
    n: nat,
)
    requires
        m <= n <= alts.len(),
        alts_checked(known, s, alts, n, t) is Some,
    ensures
        alts_checked(known, s, alts, m, t) is Some,
        (alts_checked(known, s, alts, m, t)->0).1 is Err ==> alts_checked(known, s, alts, n, t) == alts_checked(known, s, alts, m, t),
    decreases n,
{
    if m < n {
        alts_checked_before(known, s, alts, t, m, (n - 1) as nat);
    }
}

proof fn elems_checked_before(
    known: Known,
    s: Inferred,
    elems: Seq<SpannedExpr>,
    t: Ty,
    m: nat,
    n: nat,
)
    requires
        m <= n <= elems.len(),
        elems_checked(known, s, elems, n, t) is Some,
    ensures
        elems_checked(known, s, elems, m, t) is Some,
        (elems_checked(known, s, elems, m, t)->0).1 is Err ==> elems_checked(known, s, elems, n, t) == elems_checked(known, s, elems, m, t),
    decreases n,
{
    if m < n {
        elems_checked_before(known, s, elems, t, m, (n - 1) as nat);
    }
}

proof fn fields_checked_before(known: Known, s: Inferred, fields: Seq<ExprField>, m: nat, n: nat)
    requires
        m <= n <= fields.len(),
        fields_checked(known, s, fields, n) is Some,
    ensures
        fields_checked(known, s, fields, m) is Some,
        (fields_checked(known, s, fields, m)->0).1 is Err ==> fields_checked(known, s, fields, n) == fields_checked(known, s, fields, m),
    decreases n,
{
    if m < n {
        fields_checked_before(known, s, fields, m, (n - 1) as nat);
    }
}

proof fn block_checked_before(known: Known, s: Inferred, exprs: Seq<SpannedExpr>, m: nat, n: nat)
    requires
        0 < m <= n <= exprs.len(),
        block_checked(known, s, exprs, n) is Some,
    ensures
        block_checked(known, s, exprs, m) is Some,
    decreases n,
{
    if m < n {
        block_checked_before(known, s, exprs, m, (n - 1) as nat);
    }
}

proof fn signatures_before(known: Known, s: Inferred, bindings: Seq<ValueBinding>, m: nat, n: nat)
    requires
        m <= n <= bindings.len(),
        signatures(known, s, bindings, n) is Some,
    ensures
        signatures(known, s, bindings, m) is Some,
        (signatures(known, s, bindings, m)->0).1 is Err ==> signatures(known, s, bindings, n) == signatures(known, s, bindings, m),
    decreases n,
{
    if m < n {
        signatures_before(known, s, bindings, m, (n - 1) as nat);
    }
}

proof fn bodies_checked_before(
    known: Known,
    s: Inferred,
    level: u32,
    recursive: bool,
    bindings: Seq<ValueBinding>,
    m: nat,
    n: nat,
)
    requires
        m <= n <= bindings.len(),
        bodies_checked(known, s, level, recursive, bindings, n) is Some,
    ensures
        bodies_checked(known, s, level, recursive, bindings, m) is Some,
        (bodies_checked(known, s, level, recursive, bindings, m)->0).1 is Err ==> bodies_checked(known, s, level, recursive, bindings, n) == bodies_checked(known, s, level, recursive, bindings, m),
    decreases n,
{
    if m < n {
        bodies_checked_before(known, s, level, recursive, bindings, m, (n - 1) as nat);
    }
}

proof fn functions_merged_before(
    known: Known,
    s: Inferred,
    bound: Seq<Ty>,
    types: Seq<Ty>,
    m: nat,
    n: nat,
)
    requires
        m <= n <= bound.len(),
        n <= types.len(),
        functions_merged(known, s, bound, types, n) is Some,
    ensures
        functions_merged(known, s, bound, types, m) is Some,
        (functions_merged(known, s, bound, types, m)->0).1 is Err ==> functions_merged(
            known,
            s,
            bound,
            types,
            n,
        ) == functions_merged(known, s, bound, types, m),
    decreases n,
{
    if m < n {
        functions_merged_before(known, s, bound, types, m, (n - 1) as nat);
    }
}

proof fn record_types_before(known: Known, s: Inferred, types: Seq<ExprTypeField>, m: nat, n: nat)
    requires
        m <= n <= types.len(),
    ensures
        record_types(known, s, types, m) is Err ==> record_types(known, s, types, n)
            == record_types(known, s, types, m),
    decreases n,
{
    if m < n {
        record_types_before(known, s, types, m, (n - 1) as nat);
    }
}

/// There is a type for each body.
proof fn bodies_have_types(
    known: Known,
    s: Inferred,
    level: u32,
    recursive: bool,
    bindings: Seq<ValueBinding>,
    n: nat,
)
    requires
        n <= bindings.len(),
    ensures
        bodies_checked(known, s, level, recursive, bindings, n) matches Some((_, Ok(types)))
            ==> types.len() == n,
    decreases n,
{
    if n > 0 {
        bodies_have_types(known, s, level, recursive, bindings, (n - 1) as nat);
    }
}

proof fn signatures_have_types(known: Known, s: Inferred, bindings: Seq<ValueBinding>, n: nat)
    requires
        n <= bindings.len(),
    ensures
        signatures(known, s, bindings, n) matches Some((_, Ok(types))) ==> types.len() == n,
    decreases n,
{
    if n > 0 {
        signatures_have_types(known, s, bindings, (n - 1) as nat);
    }
}

/// What came of a step that only fails or does not.
pub open spec fn done_is(
    res: Result<(), TypeError>,
    after: Inferred,
    outcome: Option<(Inferred, Result<(), TypeFault>)>,
) -> bool {
    match (outcome, res) {
        (Some((s, Ok(()))), Ok(())) => after == s,
        (Some((s, Err(fault))), Err(error)) => after == s && error@ == fault,
        _ => false,
    }
}

/// What came of a step that gives types.
pub open spec fn types_are(
    res: Result<Vec<ArcType>, TypeError>,
    after: Inferred,
    outcome: Option<(Inferred, Result<Seq<Ty>, TypeFault>)>,
) -> bool {
    match (outcome, res) {
        (Some((s, Ok(types))), Ok(res)) => after == s && types_view(res@) == types,
        (Some((s, Err(fault))), Err(error)) => after == s && error@ == fault,
        _ => false,
    }
}

/// A function from two of `arg` to `ret`.
fn binary_type(arg: &ArcType, ret: &ArcType) -> (res: ArcType)
    ensures
        res@ == binary(arg@, ret@),
{
    let args = vec![arg.clone(), arg.clone()];
    assert(types_view(args@) =~= seq![arg@, arg@]);
    Type::function(args, ret.clone())
}

/// Whether more may be known of the row in `typ` later.
fn is_open(typ: &ArcType) -> (res: bool)
    ensures
        res == (row_rest(typ@) is Variable),
    decreases typ@,
{
    proof {
        parts_decrease(typ@);
    }
    match typ.as_type() {
        Type::Record(row) | Type::Variant(row) => is_open(row),
        Type::ExtendRow { fields: _, rest } => is_open(rest),
        Type::ExtendTypeRow { types: _, rest } => is_open(rest),
        Type::Variable(_) => true,
        _ => false,
    }
}

impl<'a, E: TypeEnv> Typecheck<'a, E> {
    fn typecheck_builtin(&mut self, op: &Symbol, lhs: ArcType, rhs: ArcType) -> (res: Result<
        ArcType,
        TypeError,
    >)
        requires
            op@.len() > 0,
            builtin_checked(old(self).known(), old(self)@, op@, lhs@, rhs@) is Some,
        ensures
            final(self).known() == old(self).known(),
            step_is(
                res,
                final(self)@,
                builtin_checked(old(self).known(), old(self)@, op@, lhs@, rhs@),
            ),
    {
        let arg_type = match self.unify(&lhs, rhs) {
            Ok(typ) => typ,
            Err(error) => {
                return Err(error);
            },
        };
        let name = op.as_str();
        let len: usize = name.unicode_len();
        let rest = name.substring_char(1, len);
        assert(rest@ =~= op@.skip(1));
        proof {
            reveal_strlit("Int");
            reveal_strlit("Float");
        }
        let (prim, tail) = if starts_with(rest, "Int") {
            (Type::int_(), rest.substring_char(3, len - 1))
        } else {
            (Type::float(), rest.substring_char(5, len - 1))
        };
        assert(begins(rest@, "Int"@) ==> tail@ =~= rest@.skip(3));
        assert(!begins(rest@, "Int"@) ==> tail@ =~= rest@.skip(5));
        self.note(op.clone(), binary_type(&prim, &prim));
        match self.unify(&prim, arg_type) {
            Ok(typ) => {
                let tail = tail.to_owned();
                if tail == "+".to_owned() || tail == "-".to_owned() || tail == "*".to_owned()
                    || tail == "/".to_owned() {
                    Ok(typ)
                } else if tail == "==".to_owned() || tail == "<".to_owned() {
                    Ok(self.bool_type())
                } else {
                    Err(TypeError::UndefinedVariable(op.clone()))
                }
            },
            Err(error) => Err(error),
        }
    }

    fn typecheck_function_operator(&mut self, op: &Symbol, lhs: ArcType, rhs: ArcType) -> (res:
        Result<ArcType, TypeError>)
        requires
            function_operator(old(self).known(), old(self)@, op@, lhs@, rhs@) is Some,
        ensures
            final(self).known() == old(self).known(),
            step_is(
                res,
                final(self)@,
                function_operator(old(self).known(), old(self)@, op@, lhs@, rhs@),
            ),
    {
        let op_type = match self.find(op) {
            Ok(typ) => typ,
            Err(error) => {
                return Err(error);
            },
        };
        self.note(op.clone(), op_type.clone());
        let var = self.new_var();
        let args = vec![lhs, rhs];
        assert(types_view(args@) =~= seq![lhs@, rhs@]);
        let func_type = Type::function(args, var);
        match self.unify(&op_type, func_type) {
            Ok(typ) => match typ.as_type() {
                Type::Function(_, _, rest) => match rest.as_type() {
                    Type::Function(_, _, ret) => Ok(ret.clone()),
                    _ => Ok(typ.clone()),
                },
                _ => Ok(typ.clone()),
            },
            Err(error) => Err(error),
        }
    }

    fn typecheck_operator(&mut self, op: &Symbol, lhs: ArcType, rhs: ArcType) -> (res: Result<
        ArcType,
        TypeError,
    >)
        requires
            operator_checked(old(self).known(), old(self)@, op@, lhs@, rhs@) is Some,
        ensures
            final(self).known() == old(self).known(),
            step_is(
                res,
                final(self)@,
                operator_checked(old(self).known(), old(self)@, op@, lhs@, rhs@),
            ),
    {
        let name = op.as_str();
        if name.unicode_len() > 0 && name.get_char(0) == '#' {
            return self.typecheck_builtin(op, lhs, rhs);
        }
        if name.to_owned() == "&&".to_owned() || name.to_owned() == "||".to_owned() {
            match self.unify(&lhs, rhs) {
                Ok(_) => {},
                Err(error) => {
                    return Err(error);
                },
            }
            let bool_type = self.bool_type();
            self.note(op.clone(), binary_type(&bool_type, &bool_type));
            return self.unify(&bool_type, lhs);
        }
        self.typecheck_function_operator(op, lhs, rhs)
    }

    /// A record type with the field `field` and a rest of which nothing is known.
    fn open_record(&mut self, field: &Symbol) -> (res: (ArcType, ArcType))
        requires
            open_record(old(self)@, field@) is Some,
        ensures
            final(self).known() == old(self).known(),
            open_record(old(self)@, field@) == Some((final(self)@, res.0@, res.1@)),
    {
        let typ = self.new_var();
        let rest = self.new_var();
        let fields = vec![Field::new(field.clone(), typ.clone())];
        let types: Vec<TypeField> = Vec::new();
        assert(fields_view(fields@) =~= seq![FieldTy { name: field@, typ: typ@ }]);
        assert(type_fields_view(types@) =~= Seq::<FieldTy>::empty());
        (Type::poly_record(types, fields, rest), typ)
    }

    fn accessed_type(&mut self, typ: ArcType, field: &Symbol) -> (res: Result<ArcType, TypeError>)
        requires
            accessed(old(self).known(), old(self)@, typ@, field@) is Some,
        ensures
            final(self).known() == old(self).known(),
            step_is(
                res,
                final(self)@,
                accessed(old(self).known(), old(self)@, typ@, field@),
            ),
    {
        let typ = self.actual(&typ);
        let is_variable = match typ.as_type() {
            Type::Variable(_) => true,
            _ => false,
        };
        if is_variable {
            let fields = vec![field.clone()];
            assert(symbols_view(fields@) =~= seq![field@]);
            match self.find_record(&fields) {
                None => {
                    let (record_type, _) = self.open_record(field);
                    self.unify(&record_type, typ)
                },
                Some((record_type, _)) => {
                    let record_type = self.instantiate(&record_type);
                    self.unify(&record_type, typ)
                },
            }
        } else {
            Ok(typ)
        }
    }

    fn typecheck_access(&mut self, typ: ArcType, field: &Symbol) -> (res: Result<
        ArcType,
        TypeError,
    >)
        requires
            access_checked(old(self).known(), old(self)@, typ@, field@) is Some,
        ensures
            final(self).known() == old(self).known(),
            step_is(
                res,
                final(self)@,
                access_checked(old(self).known(), old(self)@, typ@, field@),
            ),
    {
        let typ = match self.accessed_type(typ, field) {
            Ok(typ) => typ,
            Err(error) => {
                return Err(error);
            },
        };
        let record = self.remove_aliases(&typ);
        match record.as_type() {
            Type::Record(_) => match field_of(&record, field) {
                None => {
                    if !is_open(&record) {
                        return Err(TypeError::UndefinedField(typ, field.clone()));
                    }
                    let (wanted, field_type) = self.open_record(field);
                    match self.unify(&wanted, typ) {
                        Ok(_) => {
                            self.note(field.clone(), field_type.clone());
                            Ok(field_type)
                        },
                        Err(error) => Err(error),
                    }
                },
                Some(field_type) => {
                    let field_type = self.instantiate(&field_type);
                    self.note(field.clone(), field_type.clone());
                    Ok(field_type)
                },
            },
            _ => Err(TypeError::InvalidFieldAccess(record.clone())),
        }
    }

    fn bind_lambda_args(&mut self, function_type: ArcType, args: &Vec<SpannedIdent>) -> (res: Vec<
        ArcType,
    >)
        requires
            lambda_args(
                old(self).known(),
                old(self)@,
                args@,
                0,
                function_type@,
                Seq::empty(),
            ) is Some,
        ensures
            final(self).known() == old(self).known(),
            lambda_args(
                old(self).known(),
                old(self)@,
                args@,
                0,
                function_type@,
                Seq::empty(),
            ) == Some((final(self)@, types_view(res@))),
    {
        let ghost known = self.known();
        let ghost first = lambda_args(known, self@, args@, 0, function_type@, Seq::empty());
        let mut types: Vec<ArcType> = Vec::new();
        let mut rest = function_type;
        let mut i: usize = 0;
        assert(types_view(types@) =~= Seq::<Ty>::empty());
        loop
            invariant
                i <= args@.len(),
                known == old(self).known(),
                self.known() == known,
                first is Some,
                first == lambda_args(
                    known,
                    old(self)@,
                    args@,
                    0,
                    function_type@,
                    Seq::empty(),
                ),
                first == lambda_args(known, self@, args@, i as int, rest@, types_view(types@)),
            decreases args@.len() - i,
        {
            let (arg, next) = match self.next_argument(&rest) {
                Some((Some(arg), next)) => (arg, next),
                Some((None, next)) => (self.new_var(), next),
                None => {
                    self.skip(args.len() - i);
                    return types;
                },
            };
            if i >= args.len() {
                return types;
            }
            let ghost before = types@;
            let name = &args[i].value.name;
            types.push(arg.clone());
            assert(types_view(types@) =~= types_view(before).push(arg@));
            self.note(name.clone(), arg.clone());
            self.stack_var(name.clone(), arg);
            rest = next;
            i += 1;
        }
    }

    fn check_record_types(&self, types: &Vec<ExprTypeField>) -> (res: Result<
        Vec<TypeField>,
        TypeError,
    >)
        ensures
            match record_types(self.known(), self@, types@, types@.len()) {
                Ok(fields) => res matches Ok(res) && type_fields_view(res@) == fields,
                Err(fault) => res matches Err(error) && error@ == fault,
            },
    {
        let mut res: Vec<TypeField> = Vec::new();
        let mut i: usize = 0;
        assert(type_fields_view(res@) =~= Seq::<FieldTy>::empty());
        while i < types.len()
            invariant
                i <= types@.len(),
                record_types(self.known(), self@, types@, i as nat) == Ok::<
                    Seq<FieldTy>,
                    TypeFault,
                >(type_fields_view(res@)),
            decreases types@.len() - i,
        {
            proof {
                record_types_before(
                    self.known(),
                    self@,
                    types@,
                    (i + 1) as nat,
                    types@.len(),
                );
            }
            let name = self.current_name(&types[i].name.value);
            match self.find_type_info(&name) {
                None => {
                    return Err(TypeError::UndefinedType(name));
                },
                Some(alias) => {
                    let ghost before = res@;
                    let data = AliasData::new(
                        name.clone(),
                        crate::types::clone_generics(alias.data().params()),
                        alias.data().unresolved_type().clone(),
                    );
                    let field_name = Symbol::new(name.declared_name().to_owned());
                    let field = TypeField { name: field_name, typ: Alias::new_data_alias(data) };
                    res.push(field);
                    assert(type_fields_view(res@) =~= type_fields_view(before).push(
                        FieldTy { name: field.name@, typ: field.typ@ },
                    ));
                },
            }
            i += 1;
        }
        Ok(res)
    }

    fn finish_record(&mut self, types: Vec<TypeField>, fields: Vec<Field>) -> (res: Result<
        ArcType,
        TypeError,
    >)
        requires
            record_finished(
                old(self).known(),
                old(self)@,
                type_fields_view(types@),
                fields_view(fields@),
            ) is Some,
        ensures
            final(self).known() == old(self).known(),
            step_is(
                res,
                final(self)@,
                record_finished(
                    old(self).known(),
                    old(self)@,
                    type_fields_view(types@),
                    fields_view(fields@),
                ),
            ),
    {
        let mut names: Vec<Symbol> = Vec::new();
        let mut i: usize = 0;
        while i < fields.len()
            invariant
                i <= fields@.len(),
                names@.len() == i,
                forall|j: int| 0 <= j < i ==> (#[trigger] names@[j])@ == fields@[j].name@,
            decreases fields@.len() - i,
        {
            names.push(fields[i].name.clone());
            i += 1;
        }
        assert(symbols_view(names@) =~= names_of(fields_view(fields@)));
        let record = Type::record(types, fields);
        match self.find_record(&names) {
            None => {
                self.note(no_name(), record.clone());
                Ok(record)
            },
            Some((id_type, record_type)) => {
                let id_type = self.instantiate(&id_type);
                let record_type = self.instantiate_more(&record_type);
                match self.unify(&record, record_type) {
                    Ok(_) => {
                        self.note(no_name(), id_type.clone());
                        Ok(id_type)
                    },
                    Err(error) => Err(error),
                }
            },
        }
    }

    pub(crate) fn rename_types(&mut self, bindings: &Vec<TypeBinding>)
        ensures
            final(self).known() == old(self).known(),
            final(self)@ == types_renamed(
                old(self).known(),
                old(self)@,
                bindings@,
                bindings@.len(),
            ),
    {
        let mut i: usize = 0;
        while i < bindings.len()
            invariant
                i <= bindings@.len(),
                self.known() == old(self).known(),
                self@ == types_renamed(old(self).known(), old(self)@, bindings@, i as nat),
            decreases bindings@.len() - i,
        {
            // Create a new symbol for this binding so that this type will
            // differ from any other types which are named the same
            let new = self.scoped_symbol(&bindings[i].name.value);
            self.rename_to(bindings[i].name.value.clone(), new);
            i += 1;
        }
    }

    pub(crate) fn scoped_symbol(&self, name: &Symbol) -> (res: Symbol)
        ensures
            res@ == scoped_name(self.known().module, name@),
    {
        let mut res = join(self.module().as_str(), ".");
        res.append(name.as_str());
        Symbol::new(res)
    }

    fn find_unknown_in_bindings(&self, bindings: &Vec<TypeBinding>) -> (res: Option<Symbol>)
        ensures
            name_view(res) == unknown_in_bindings(
                self.known(),
                self@,
                bindings@,
                bindings@.len(),
            ),
    {
        let ghost known = self.known();
        let mut declared: Vec<Symbol> = Vec::new();
        let mut i: usize = 0;
        while i < bindings.len()
            invariant
                i <= bindings@.len(),
                known == self.known(),
                declared@.len() == i,
                forall|j: int|
                    0 <= j < i ==> (#[trigger] declared@[j])@ == scoped_name(
                        known.module,
                        bindings@[j].name.value@,
                    ),
            decreases bindings@.len() - i,
        {
            declared.push(self.scoped_symbol(&bindings[i].name.value));
            i += 1;
        }
        assert(symbols_view(declared@) =~= declared_names(known, bindings@));
        let mut found: Option<Symbol> = None;
        let mut i: usize = 0;
        while i < bindings.len()
            invariant
                i <= bindings@.len(),
                known == self.known(),
                symbols_view(declared@) == declared_names(known, bindings@),
                name_view(found) == unknown_in_bindings(known, self@, bindings@, i as nat),
            decreases bindings@.len() - i,
        {
            if found.is_none() {
                let typ = self.refresh(bindings[i].alias.value.unresolved_type());
                found = self.find_unknown(&declared, &typ);
            }
            i += 1;
        }
        found
    }

    pub(crate) fn declare_types(
        &mut self,
        bindings: &Vec<TypeBinding>,
        params: &Vec<Vec<Generic>>,
        span: Span,
    )
        requires
            params@.len() == bindings@.len(),
        ensures
            final(self).known() == old(self).known(),
            final(self)@ == types_declared(
                old(self).known(),
                old(self)@,
                bindings@,
                groups_view(params@),
                span,
                bindings@.len(),
            ),
    {
        let mut i: usize = 0;
        while i < bindings.len()
            invariant
                i <= bindings@.len(),
                self.known() == old(self).known(),
                params@.len() == bindings@.len(),
                self@ == types_declared(
                    old(self).known(),
                    old(self)@,
                    bindings@,
                    groups_view(params@),
                    span,
                    i as nat,
                ),
            decreases bindings@.len() - i,
        {
            let id = self.scoped_symbol(&bindings[i].name.value);
            if self.is_declared(&id) {
                self.report(span, TypeError::DuplicateTypeDefinition(id));
            } else {
                let data = &bindings[i].alias.value;
                let typ = Type::app(Type::ident(id.clone()), to_generic_types(data.params()));
                let actual_type = self.refresh(data.unresolved_type());
                let params = crate::types::clone_generics(&params[i]);
                self.stack_type(id, Declared { typ, params, actual: actual_type });
            }
            i += 1;
        }
    }

    fn fail(&mut self, span: Span, error: TypeError) -> (res: ArcType)
        requires
            reported(old(self)@, span, error@) is Some,
        ensures
            final(self).known() == old(self).known(),
            reported(old(self)@, span, error@) == Some((final(self)@, res@)),
    {
        let res = self.new_var();
        self.report(span, error);
        res
    }

    /// The type of `expr`.
    #[verifier::rlimit(60)]
    fn typecheck(&mut self, expr: &SpannedExpr) -> (res: ArcType)
        requires
            checked(old(self).known(), old(self)@, *expr) is Some,
        ensures
            final(self).known() == old(self).known(),
            checked(old(self).known(), old(self)@, *expr) == Some((final(self)@, res@)),
        decreases *expr, 3nat,
    {
        match &expr.value {
            Expr::LetBindings(bindings, body) => match self.typecheck_bindings(bindings) {
                Ok(()) => {
                    let typ = self.typecheck(body);
                    self.exit_scope();
                    typ
                },
                Err(error) => self.fail(expr.span, error),
            },
            Expr::TypeBindings(bindings, body) => {
                self.enter_scope();
                self.rename_types(bindings);
                if let Some(name) = self.find_unknown_in_bindings(bindings) {
                    return self.fail(expr.span, TypeError::UndefinedType(name));
                }
                match self.kindcheck_types(bindings) {
                    Ok(params) => {
                        self.declare_types(bindings, &params, body.span);
                        let typ = self.typecheck(body);
                        self.exit_scope();
                        typ
                    },
                    Err(error) => self.fail(expr.span, TypeError::KindError(error)),
                }
            },
            _ => match self.typecheck_(&expr.value) {
                Ok(typ) => typ,
                Err(error) => self.fail(expr.span, error),
            },
        }
    }

    #[verifier::rlimit(40)]
    fn typecheck_(&mut self, expr: &Expr) -> (res: Result<ArcType, TypeError>)
        requires
            value_checked(old(self).known(), old(self)@, *expr) is Some,
        ensures
            final(self).known() == old(self).known(),
            step_is(res, final(self)@, value_checked(old(self).known(), old(self)@, *expr)),
        decreases *expr, 2nat,
    {
        match expr {
            Expr::Ident(id) => {
                let name = self.current_name(&id.name);
                match self.find(&name) {
                    Ok(typ) => {
                        self.note(name, typ.clone());
                        Ok(typ)
                    },
                    Err(error) => Err(error),
                }
            },
            Expr::Literal(literal) => Ok(
                match literal {
                    Literal::Byte(_) => Type::byte(),
                    Literal::Int(_) => Type::int_(),
                    Literal::Float(_) => Type::float(),
                    Literal::String(_) => Type::string(),
                    Literal::Char(_) => Type::char(),
                },
            ),
            Expr::App(func, args) => {
                let func_type = self.typecheck(func);
                self.typecheck_args(args, func_type)
            },
            Expr::IfElse(pred, if_true, if_false) => {
                let pred_type = self.typecheck(pred);
                let bool_type = self.bool_type();
                match self.unify(&bool_type, pred_type) {
                    Ok(_) => {},
                    Err(error) => {
                        return Err(error);
                    },
                }
                let true_type = self.typecheck(if_true);
                let false_type = self.typecheck(if_false);
                self.unify(&true_type, false_type)
            },
            Expr::Infix(lhs, op, rhs) => {
                let lhs_type = self.typecheck(lhs);
                let rhs_type = self.typecheck(rhs);
                self.typecheck_operator(&op.value.name, lhs_type, rhs_type)
            },
            Expr::Tuple { .. } => Ok(Type::unit()),
            Expr::Match(expr, alts) => {
                let typ = self.typecheck(expr);
                match self.typecheck_alts(alts, typ) {
                    Ok(Some(typ)) => Ok(typ),
                    Ok(None) => Err(TypeError::EmptyCase),
                    Err(error) => Err(error),
                }
            },
            Expr::Projection(expr, field, _) => {
                let typ = self.typecheck(expr);
                self.typecheck_access(typ, field)
            },
            Expr::Array(_, elems) => {
                let expected_type = self.new_var();
                match self.typecheck_elems(elems, expected_type) {
                    Ok(typ) => {
                        let array = Type::array(typ);
                        self.note(no_name(), array.clone());
                        Ok(array)
                    },
                    Err(error) => Err(error),
                }
            },
            Expr::Lambda(lambda) => {
                let function_type = self.new_var();
                let typ = self.typecheck_lambda(function_type, &lambda.args, &lambda.body);
                self.note(lambda.id.name.clone(), typ.clone());
                Ok(typ)
            },
            Expr::Record { typ: _, types, exprs, base: _ } => {
                let types = match self.check_record_types(types) {
                    Ok(types) => types,
                    Err(error) => {
                        return Err(error);
                    },
                };
                match self.typecheck_fields(exprs) {
                    Ok(fields) => self.finish_record(types, fields),
                    Err(error) => Err(error),
                }
            },
            Expr::Block(exprs) => Ok(self.typecheck_block(exprs)),
            _ => Ok(Type::unit()),
        }
    }

    #[verifier::rlimit(40)]
    fn typecheck_args(&mut self, args: &Vec<SpannedExpr>, func_type: ArcType) -> (res: Result<
        ArcType,
        TypeError,
    >)
        requires
            args_checked(
                old(self).known(),
                old(self)@,
                args@,
                args@.len(),
                func_type@,
            ) is Some,
        ensures
            final(self).known() == old(self).known(),
            step_is(
                res,
                final(self)@,
                call_finished(
                    args_checked(old(self).known(), old(self)@, args@, args@.len(), func_type@),
                ),
            ),
        decreases args@, args@.len(),
    {
        let ghost known = self.known();
        let ghost s = self@;
        let mut func = func_type;
        let ghost start = func@;
        let mut i: usize = 0;
        while i < args.len()
            invariant
                i <= args@.len(),
                known == old(self).known(),
                self.known() == known,
                s == old(self)@,
                start == func_type@,
                args_checked(known, s, args@, args@.len(), start) is Some,
                args_checked(known, s, args@, i as nat, start) == Some(
                    (self@, Ok::<Called, TypeFault>(Called::Returns(func@))),
                ),
            decreases args@.len() - i,
        {
            proof {
                args_checked_before(known, s, args@, start, (i + 1) as nat, args@.len());
                assert(decreases_to!(args@ => args@[i as int]));
            }
            match self.check_arg(&args[i], func) {
                Ok((typ, true)) => {
                    func = typ;
                },
                Ok((var, false)) => {
                    return Ok(var);
                },
                Err(error) => {
                    return Err(error);
                },
            }
            i += 1;
        }
        Ok(func)
    }

    #[verifier::rlimit(40)]
    fn check_arg(
        &mut self,
        arg: &SpannedExpr,
        func_type: ArcType,
    ) -> (res: Result<(ArcType, bool), TypeError>)
        requires
            arg_checked(old(self).known(), old(self)@, *arg, func_type@) is Some,
        ensures
            final(self).known() == old(self).known(),
            match (arg_checked(old(self).known(), old(self)@, *arg, func_type@), res) {
                (Some((s, Ok(Called::Returns(t)))), Ok((typ, true))) => final(self)@ == s && typ@
                    == t,
                (Some((s, Ok(Called::Left(t)))), Ok((var, false))) => final(self)@ == s && var@
                    == t,
                (Some((s, Err(fault))), Err(error)) => final(self)@ == s && error@ == fault,
                _ => false,
            },
        decreases *arg, 4nat,
    {
        let arg_var = self.new_var();
        let ret_var = self.new_var();
        let args = vec![arg_var];
        assert(types_view(args@) =~= seq![arg_var@]);
        let f = Type::function(args, ret_var);
        let typ = match self.unify(&f, func_type) {
            Ok(typ) => typ,
            Err(error) => {
                return Err(error);
            },
        };
        match typ.as_type() {
            Type::Function(_, arg_type, ret) => {
                let given = self.typecheck(arg);
                match self.unify(arg_type, given) {
                    Ok(_) => Ok((ret.clone(), true)),
                    Err(error) => Ok((self.fail(arg.span, error), false)),
                }
            },
            _ => Err(TypeError::NotAFunction(typ.clone())),
        }
    }

    #[verifier::rlimit(40)]
    fn typecheck_alts(&mut self, alts: &Vec<Alternative>, typ: ArcType) -> (res: Result<
        Option<ArcType>,
        TypeError,
    >)
        requires
            alts_checked(old(self).known(), old(self)@, alts@, alts@.len(), typ@) is Some,
        ensures
            final(self).known() == old(self).known(),
            match alts_checked(old(self).known(), old(self)@, alts@, alts@.len(), typ@) {
                Some((s, Ok(t))) => final(self)@ == s && (res matches Ok(res)
                    && crate::types::walk::opt_view(res) == t),
                Some((s, Err(fault))) => final(self)@ == s && (res matches Err(error) && error@
                    == fault),
                None => false,
            },
        decreases alts@, alts@.len(),
    {
        let ghost known = self.known();
        let ghost s = self@;
        let mut expected: Option<ArcType> = None;
        let mut i: usize = 0;
        while i < alts.len()
            invariant
                i <= alts@.len(),
                known == old(self).known(),
                self.known() == known,
                s == old(self)@,
                alts_checked(known, s, alts@, alts@.len(), typ@) is Some,
                alts_checked(known, s, alts@, i as nat, typ@) == Some(
                    (self@, Ok::<Option<Ty>, TypeFault>(crate::types::walk::opt_view(expected))),
                ),
            decreases alts@.len() - i,
        {
            proof {
                alts_checked_before(known, s, alts@, typ@, (i + 1) as nat, alts@.len());
                assert(decreases_to!(alts@ => alts@[i as int]));
                assert(decreases_to!(alts@[i as int] => alts@[i as int].expr));
            }
            self.enter_scope();
            match self.typecheck_pattern(&alts[i].pattern, typ.clone()) {
                Ok(_) => {},
                Err(error) => {
                    return Err(error);
                },
            }
            let alt_type = self.typecheck(&alts[i].expr);
            self.exit_scope();
            expected =
            match expected {
                Some(expected) => match self.unify(&expected, alt_type) {
                    Ok(typ) => Some(typ),
                    Err(error) => {
                        return Err(error);
                    },
                },
                None => Some(alt_type),
            };
            i += 1;
        }
        Ok(expected)
    }

    #[verifier::rlimit(40)]
    fn typecheck_elems(&mut self, elems: &Vec<SpannedExpr>, expected_type: ArcType) -> (res: Result<
        ArcType,
        TypeError,
    >)
        requires
            elems_checked(
                old(self).known(),
                old(self)@,
                elems@,
                elems@.len(),
                expected_type@,
            ) is Some,
        ensures
            final(self).known() == old(self).known(),
            step_is(
                res,
                final(self)@,
                elems_checked(
                    old(self).known(),
                    old(self)@,
                    elems@,
                    elems@.len(),
                    expected_type@,
                ),
            ),
        decreases elems@, elems@.len(),
    {
        let ghost known = self.known();
        let ghost s = self@;
        let mut expected = expected_type;
        let ghost start = expected@;
        let mut i: usize = 0;
        while i < elems.len()
            invariant
                i <= elems@.len(),
                known == old(self).known(),
                self.known() == known,
                s == old(self)@,
                start == expected_type@,
                elems_checked(known, s, elems@, elems@.len(), start) is Some,
                elems_checked(known, s, elems@, i as nat, start) == Some(
                    (self@, Ok::<Ty, TypeFault>(expected@)),
                ),
            decreases elems@.len() - i,
        {
            proof {
                elems_checked_before(known, s, elems@, start, (i + 1) as nat, elems@.len());
                assert(decreases_to!(elems@ => elems@[i as int]));
            }
            let typ = self.typecheck(&elems[i]);
            match self.unify(&expected, typ) {
                Ok(typ) => {
                    expected = typ;
                },
                Err(error) => {
                    return Err(error);
                },
            }
            i += 1;
        }
        Ok(expected)
    }

    fn typecheck_lambda(
        &mut self,
        function_type: ArcType,
        args: &Vec<SpannedIdent>,
        body: &SpannedExpr,
    ) -> (res: ArcType)
        requires
            lambda_checked(
                old(self).known(),
                old(self)@,
                function_type@,
                args@,
                *body,
            ) is Some,
        ensures
            final(self).known() == old(self).known(),
            lambda_checked(old(self).known(), old(self)@, function_type@, args@, *body) == Some(
                (final(self)@, res@),
            ),
        decreases *body, 4nat,
    {
        self.enter_scope();
        let arg_types = self.bind_lambda_args(function_type, args);
        let body_type = self.typecheck(body);
        self.exit_scope();
        Type::function(arg_types, body_type)
    }

    #[verifier::rlimit(40)]
    fn typecheck_fields(&mut self, fields: &Vec<ExprField>) -> (res: Result<
        Vec<Field>,
        TypeError,
    >)
        requires
            fields_checked(old(self).known(), old(self)@, fields@, fields@.len()) is Some,
        ensures
            final(self).known() == old(self).known(),
            match fields_checked(old(self).known(), old(self)@, fields@, fields@.len()) {
                Some((s, Ok(all))) => final(self)@ == s && (res matches Ok(res) && fields_view(
                    res@,
                ) == all),
                Some((s, Err(fault))) => final(self)@ == s && (res matches Err(error) && error@
                    == fault),
                None => false,
            },
        decreases fields@, fields@.len(),
    {
        let ghost known = self.known();
        let ghost s = self@;
        let mut res: Vec<Field> = Vec::new();
        let mut i: usize = 0;
        assert(fields_view(res@) =~= Seq::<FieldTy>::empty());
        while i < fields.len()
            invariant
                i <= fields@.len(),
                known == old(self).known(),
                self.known() == known,
                s == old(self)@,
                fields_checked(known, s, fields@, fields@.len()) is Some,
                fields_checked(known, s, fields@, i as nat) == Some(
                    (self@, Ok::<Seq<FieldTy>, TypeFault>(fields_view(res@))),
                ),
            decreases fields@.len() - i,
        {
            proof {
                fields_checked_before(known, s, fields@, (i + 1) as nat, fields@.len());
                assert(decreases_to!(fields@ => fields@[i as int]));
                assert(decreases_to!(fields@[i as int] => fields@[i as int].value));
            }
            let ghost before = res@;
            let name = &fields[i].name.value;
            let typ = match &fields[i].value {
                Some(expr) => self.typecheck(expr),
                None => match self.find(name) {
                    Ok(typ) => {
                        self.note(name.clone(), typ.clone());
                        typ
                    },
                    Err(error) => {
                        return Err(error);
                    },
                },
            };
            res.push(Field { name: name.clone(), typ });
            assert(fields_view(res@) =~= fields_view(before).push(
                FieldTy { name: name@, typ: typ@ },
            ));
            i += 1;
        }
        Ok(res)
    }

    #[verifier::rlimit(40)]
    fn typecheck_block(&mut self, exprs: &Vec<SpannedExpr>) -> (res: ArcType)
        requires
            block_checked(old(self).known(), old(self)@, exprs@, exprs@.len()) is Some,
        ensures
            final(self).known() == old(self).known(),
            block_checked(old(self).known(), old(self)@, exprs@, exprs@.len()) == Some(
                (final(self)@, Ok::<Ty, TypeFault>(res@)),
            ),
        decreases exprs@, exprs@.len(),
    {
        let ghost known = self.known();
        let ghost s = self@;
        proof {
            block_checked_before(known, s, exprs@, 1, exprs@.len());
            assert(decreases_to!(exprs@ => exprs@[0]));
        }
        let mut typ = self.typecheck(&exprs[0]);
        let mut i: usize = 1;
        while i < exprs.len()
            invariant
                0 < i <= exprs@.len(),
                known == old(self).known(),
                self.known() == known,
                s == old(self)@,
                block_checked(known, s, exprs@, exprs@.len()) is Some,
                block_checked(known, s, exprs@, i as nat) == Some(
                    (self@, Ok::<Ty, TypeFault>(typ@)),
                ),
            decreases exprs@.len() - i,
        {
            proof {
                block_checked_before(known, s, exprs@, (i + 1) as nat, exprs@.len());
                assert(decreases_to!(exprs@ => exprs@[i as int]));
            }
            typ = self.typecheck(&exprs[i]);
            i += 1;
        }
        typ
    }

    fn check_signatures(&mut self, bindings: &Vec<ValueBinding>) -> (res: Result<
        Vec<ArcType>,
        TypeError,
    >)
        requires
            signatures(old(self).known(), old(self)@, bindings@, bindings@.len()) is Some,
        ensures
            final(self).known() == old(self).known(),
            types_are(
                res,
                final(self)@,
                signatures(old(self).known(), old(self)@, bindings@, bindings@.len()),
            ),
    {
        let ghost known = self.known();
        let ghost s = self@;
        let mut types: Vec<ArcType> = Vec::new();
        let mut i: usize = 0;
        assert(types_view(types@) =~= Seq::<Ty>::empty());
        while i < bindings.len()
            invariant
                i <= bindings@.len(),
                known == old(self).known(),
                self.known() == known,
                s == old(self)@,
                signatures(known, s, bindings@, bindings@.len()) is Some,
                signatures(known, s, bindings@, i as nat) == Some(
                    (self@, Ok::<Seq<Ty>, TypeFault>(types_view(types@))),
                ),
            decreases bindings@.len() - i,
        {
            proof {
                signatures_before(known, s, bindings@, (i + 1) as nat, bindings@.len());
            }
            let ghost before = types@;
            let typ = match self.check_signature(&bindings[i]) {
                Ok(typ) => typ,
                Err(error) => {
                    return Err(error);
                },
            };
            let typ = match self.typecheck_pattern(&bindings[i].name, typ) {
                Ok(typ) => typ,
                Err(error) => {
                    return Err(error);
                },
            };
            types.push(typ);
            assert(types_view(types@) =~= types_view(before).push(typ@));
            i += 1;
        }
        Ok(types)
    }

    fn check_signature(&mut self, binding: &ValueBinding) -> (res: Result<ArcType, TypeError>)
        requires
            signature(old(self).known(), old(self)@, *binding) is Some,
        ensures
            final(self).known() == old(self).known(),
            step_is(res, final(self)@, signature(old(self).known(), old(self)@, *binding)),
    {
        let var = self.new_var();
        match &binding.typ {
            None => Ok(var),
            Some(type_decl) => {
                let type_decl = self.refresh(&type_decl.typ);
                let declared: Vec<Symbol> = Vec::new();
                assert(symbols_view(declared@) =~= Seq::<Seq<char>>::empty());
                if let Some(name) = self.find_unknown(&declared, &type_decl) {
                    return Err(TypeError::UndefinedType(name));
                }
                if let Err(error) = self.kindcheck(&type_decl) {
                    return Err(TypeError::KindError(error));
                }
                let decl = self.instantiate(&type_decl);
                self.unify(&decl, var)
            },
        }
    }

    fn declared_type(&self, recursive: bool, binding: &ValueBinding) -> (res: Option<ArcType>)
        ensures
            crate::types::walk::opt_view(res) == declared_type(self@, recursive, *binding),
    {
        match &binding.typ {
            None => None,
            Some(type_decl) => Some(
                if recursive || binding.args.len() == 0 {
                    self.refresh(&type_decl.typ)
                } else {
                    type_decl.typ.clone()
                },
            ),
        }
    }

    fn typecheck_body(&mut self, declared: &Option<ArcType>, binding: &ValueBinding) -> (res:
        Result<ArcType, TypeError>)
        requires
            body_checked(
                old(self).known(),
                old(self)@,
                crate::types::walk::opt_view(*declared),
                *binding,
            ) is Some,
        ensures
            final(self).known() == old(self).known(),
            step_is(
                res,
                final(self)@,
                body_checked(
                    old(self).known(),
                    old(self)@,
                    crate::types::walk::opt_view(*declared),
                    *binding,
                ),
            ),
        decreases *binding, 5nat,
    {
        // Functions which are declared as `let f x = ...` are allowed to be self
        // recursive
        if binding.args.len() > 0 {
            let function_type = match declared {
                Some(typ) => typ.clone(),
                None => self.new_var(),
            };
            Ok(self.typecheck_lambda(function_type, &binding.args, &binding.expr))
        } else {
            if let Some(typ) = declared {
                let none: Vec<Symbol> = Vec::new();
                assert(symbols_view(none@) =~= Seq::<Seq<char>>::empty());
                if let Some(name) = self.find_unknown(&none, typ) {
                    return Err(TypeError::UndefinedType(name));
                }
                if let Err(error) = self.kindcheck(typ) {
                    return Err(TypeError::KindError(error));
                }
            }
            Ok(self.typecheck(&binding.expr))
        }
    }

    fn merge_declared(&mut self, declared: &Option<ArcType>, typ: ArcType) -> (res: Result<
        ArcType,
        TypeError,
    >)
        requires
            merged_with(
                old(self).known(),
                old(self)@,
                crate::types::walk::opt_view(*declared),
                typ@,
            ) is Some,
        ensures
            final(self).known() == old(self).known(),
            step_is(
                res,
                final(self)@,
                merged_with(
                    old(self).known(),
                    old(self)@,
                    crate::types::walk::opt_view(*declared),
                    typ@,
                ),
            ),
    {
        match declared {
            Some(type_decl) => self.unify(type_decl, typ),
            None => Ok(typ),
        }
    }

    fn bind_value(&mut self, level: u32, from: usize, binding: &ValueBinding, typ: ArcType) -> (res:
        Result<ArcType, TypeError>)
        requires
            bound_value(
                old(self).known(),
                old(self)@,
                level,
                from as nat,
                *binding,
                typ@,
            ) is Some,
        ensures
            final(self).known() == old(self).known(),
            step_is(
                res,
                final(self)@,
                bound_value(old(self).known(), old(self)@, level, from as nat, *binding, typ@),
            ),
    {
        self.generalize_variables(level, from);
        self.typecheck_pattern(&binding.name, typ)
    }

    #[verifier::rlimit(40)]
    fn typecheck_bodies(
        &mut self,
        level: u32,
        recursive: bool,
        bindings: &Vec<ValueBinding>,
    ) -> (res:
        Result<Vec<ArcType>, TypeError>)
        requires
            bodies_checked(
                old(self).known(),
                old(self)@,
                level,
                recursive,
                bindings@,
                bindings@.len(),
            ) is Some,
        ensures
            final(self).known() == old(self).known(),
            types_are(
                res,
                final(self)@,
                bodies_checked(
                    old(self).known(),
                    old(self)@,
                    level,
                    recursive,
                    bindings@,
                    bindings@.len(),
                ),
            ),
        decreases bindings@, bindings@.len(),
    {
        let ghost known = self.known();
        let ghost s = self@;
        let mut types: Vec<ArcType> = Vec::new();
        let mut i: usize = 0;
        assert(types_view(types@) =~= Seq::<Ty>::empty());
        while i < bindings.len()
            invariant
                i <= bindings@.len(),
                known == old(self).known(),
                self.known() == known,
                s == old(self)@,
                bodies_checked(
                    known,
                    s,
                    level,
                    recursive,
                    bindings@,
                    bindings@.len(),
                ) is Some,
                bodies_checked(known, s, level, recursive, bindings@, i as nat) == Some(
                    (self@, Ok::<Seq<Ty>, TypeFault>(types_view(types@))),
                ),
            decreases bindings@.len() - i,
        {
            proof {
                bodies_checked_before(
                    known,
                    s,
                    level,
                    recursive,
                    bindings@,
                    (i + 1) as nat,
                    bindings@.len(),
                );
                assert(decreases_to!(bindings@ => bindings@[i as int]));
            }
            let ghost before = types@;
            let from: usize = self.note_count();
            let declared = self.declared_type(recursive, &bindings[i]);
            let typ = match self.typecheck_body(&declared, &bindings[i]) {
                Ok(typ) => typ,
                Err(error) => {
                    return Err(error);
                },
            };
            let typ = match self.merge_declared(&declared, typ) {
                Ok(typ) => typ,
                Err(error) => {
                    return Err(error);
                },
            };
            if recursive {
                self.name_lambda(&bindings[i]);
            } else {
                match self.bind_value(level, from, &bindings[i], typ.clone()) {
                    Ok(_) => {},
                    Err(error) => {
                        return Err(error);
                    },
                }
            }
            types.push(typ);
            assert(types_view(types@) =~= types_view(before).push(typ@));
            i += 1;
        }
        Ok(types)
    }

    fn name_lambda(&mut self, binding: &ValueBinding)
        ensures
            final(self).known() == old(self).known(),
            final(self)@ == lambda_named(old(self)@, *binding),
    {
        match (&binding.expr.value, &binding.name.value) {
            (Expr::Lambda(_), Pattern::Ident(id)) => {
                self.rename_last(&id.name);
            },
            _ => {},
        }
    }

    fn merge_functions(&mut self, bound: &Vec<ArcType>, types: &Vec<ArcType>) -> (res: Result<
        (),
        TypeError,
    >)
        requires
            bound@.len() <= types@.len(),
            functions_merged(
                old(self).known(),
                old(self)@,
                types_view(bound@),
                types_view(types@),
                bound@.len(),
            ) is Some,
        ensures
            final(self).known() == old(self).known(),
            done_is(
                res,
                final(self)@,
                functions_merged(
                    old(self).known(),
                    old(self)@,
                    types_view(bound@),
                    types_view(types@),
                    bound@.len(),
                ),
            ),
    {
        let ghost known = self.known();
        let ghost s = self@;
        let ghost (l, r) = (types_view(bound@), types_view(types@));
        let mut i: usize = 0;
        while i < bound.len()
            invariant
                i <= bound@.len() <= types@.len(),
                l == types_view(bound@),
                r == types_view(types@),
                known == old(self).known(),
                self.known() == known,
                s == old(self)@,
                functions_merged(known, s, l, r, bound@.len()) is Some,
                functions_merged(known, s, l, r, i as nat) == Some(
                    (self@, Ok::<(), TypeFault>(())),
                ),
            decreases bound@.len() - i,
        {
            proof {
                functions_merged_before(known, s, l, r, (i + 1) as nat, bound@.len());
            }
            // Merge the variable we bound to the name and the type inferred
            // in the expression
            match self.unify(&bound[i], types[i].clone()) {
                Ok(_) => {},
                Err(error) => {
                    return Err(error);
                },
            }
            i += 1;
        }
        Ok(())
    }

    #[verifier::rlimit(40)]
    fn typecheck_bindings(&mut self, bindings: &Vec<ValueBinding>) -> (res: Result<(), TypeError>)
        requires
            bindings_checked(old(self).known(), old(self)@, bindings@) is Some,
        ensures
            final(self).known() == old(self).known(),
            done_is(
                res,
                final(self)@,
                bindings_checked(old(self).known(), old(self)@, bindings@),
            ),
        decreases bindings@, bindings@.len() + 1,
    {
        let level: u32 = self.var_count() as u32;
        let from: usize = self.note_count();
        let recursive = are_functions(bindings);
        self.enter_scope();
        let ghost (known, entered) = (self.known(), self@);
        let mut bound: Vec<ArcType> = Vec::new();
        assert(types_view(bound@) =~= Seq::<Ty>::empty());
        if recursive {
            proof {
                signatures_have_types(known, entered, bindings@, bindings@.len());
            }
            match self.check_signatures(bindings) {
                Ok(types) => {
                    bound = types;
                },
                Err(error) => {
                    return Err(error);
                },
            }
        }
        proof {
            bodies_have_types(known, self@, level, recursive, bindings@, bindings@.len());
            assert(types_view(bound@).len() == bound@.len());
        }
        let types = match self.typecheck_bodies(level, recursive, bindings) {
            Ok(types) => types,
            Err(error) => {
                return Err(error);
            },
        };
        assert(types_view(types@).len() == types@.len());
        match self.merge_functions(&bound, &types) {
            Ok(()) => {},
            Err(error) => {
                return Err(error);
            },
        }
        // Once all variables inside the let has been unified we can quantify them
        self.generalize_variables(level, from);
        self.finish_bindings(level, bindings);
        Ok(())
    }

    /// Typecheck `expr`. If successful the type of the expression will be returned and all
    /// identifiers in `expr` will be filled with the inferred type. Otherwise there are errors. `expr`
    /// stays as it is then, unless they are about which binding a name refers to.
    pub fn typecheck_expr(&mut self, expr: &mut SpannedExpr) -> (res: Option<ArcType>)
        requires
            expr_checked(old(self).known(), old(self)@, *old(expr)) is Some,
        ensures
            final(self).known() == old(self).known(),
            expr_checked(old(self).known(), old(self)@, *old(expr)) == Some(
                (final(self)@, crate::types::walk::opt_view(res)),
            ),
            same_but_types(*old(expr), *final(expr)),
            match expr_inferred(old(self).known(), old(self)@, *old(expr)) {
                Some((s, Some(_))) => s.notes.len() == places(*old(expr)).len() && places(
                    *final(expr),
                ) == refilled(places(*old(expr)), s.notes, 0),
                _ => places(*final(expr)) == places(*old(expr)),
            },
    {
        proof {
            same_itself(*expr);
        }
        self.clear();
        let typ = self.typecheck(expr);
        if self.errors().len() > 0 {
            return None;
        }
        let typ = self.finish_type(0, &typ);
        self.generalize_variables(0, 0);
        proof {
            identifiers_are_noted(old(self).known(), old(self)@, *old(expr));
        }
        let notes = self.copy_notes();
        let count: usize = notes.len();
        assert(count == places(*expr).len());
        self.forget_values();
        self.resolve_uses(expr, 0);
        fill(expr, &notes);
        if self.errors().len() > 0 {
            None
        } else {
            Some(typ)
        }
    }
}

pub(crate) fn are_functions(bindings: &Vec<ValueBinding>) -> (res: bool)
    ensures
        res == all_functions(bindings@),
{
    let mut i: usize = 0;
    while i < bindings.len()
        invariant
            i <= bindings@.len(),
            forall|j: int| 0 <= j < i ==> (#[trigger] bindings@[j]).args@.len() > 0,
        decreases bindings@.len() - i,
    {
        if bindings[i].args.len() == 0 {
            return false;
        }
        i += 1;
    }
    true
}

} // verus!
