//! The types of expressions that have been type checked.

use vstd::prelude::*;
use crate::ast::{Expr, Literal, Pattern, SpannedExpr, SpannedPattern, ValueBinding};
use crate::resolve::{expanded, remove_alias, TypeEnv};
use crate::types::model::{AliasTy, Ty};
use crate::types::query::{function_parts, lacks_argument};
use crate::types::{ArcType, BuiltinType, Type};

verus! {

/// A function of type `t` applied to `count` arguments has the type `res`, after `n` steps: a step
/// is an argument or the expansion of an alias.
pub open spec fn returns_to(
    infos: Map<Seq<char>, AliasTy>,
    t: Ty,
    count: nat,
    n: nat,
    res: Ty,
) -> bool
    decreases n,
{
    if count == 0 {
        n == 0 && res == t
    } else if lacks_argument(t) {
        false
    } else {
        match function_parts(t) {
            Some((_, _, ret)) => n > 0 && returns_to(
                infos,
                ret,
                (count - 1) as nat,
                (n - 1) as nat,
                res,
            ),
            None => match expanded(infos, t) {
                Some(next) => n > 0 && returns_to(infos, next, count, (n - 1) as nat, res),
                None => false,
            },
        }
    }
}

/// The type of a function is determined by the function and the number of arguments.
pub proof fn returns_to_one(
    infos: Map<Seq<char>, AliasTy>,
    t: Ty,
    count: nat,
    n: nat,
    r: Ty,
    m: nat,
    s: Ty,
)
    requires
        returns_to(infos, t, count, n, r),
        returns_to(infos, t, count, m, s),
    ensures
        n == m,
        r == s,
    decreases n,
{
    if count > 0 {
        match function_parts(t) {
            Some((_, _, ret)) => {
                returns_to_one(
                    infos,
                    ret,
                    (count - 1) as nat,
                    (n - 1) as nat,
                    r,
                    (m - 1) as nat,
                    s,
                );
            },
            None => {
                let next = expanded(infos, t)->0;
                returns_to_one(infos, next, count, (n - 1) as nat, r, (m - 1) as nat, s);
            },
        }
    }
}

/// The type of a function of type `t` applied to `count` arguments, if it takes so many.
pub open spec fn return_type(infos: Map<Seq<char>, AliasTy>, t: Ty, count: nat) -> Option<Ty> {
    if exists|n: nat, r: Ty| returns_to(infos, t, count, n, r) {
        Some((choose|n: nat, r: Ty| returns_to(infos, t, count, n, r)).1)
    } else {
        None
    }
}

proof fn return_type_is(infos: Map<Seq<char>, AliasTy>, t: Ty, count: nat, n: nat, r: Ty)
    requires
        returns_to(infos, t, count, n, r),
    ensures
        return_type(infos, t, count) == Some(r),
{
    let (m, s) = choose|n: nat, r: Ty| returns_to(infos, t, count, n, r);
    returns_to_one(infos, t, count, n, r, m, s);
}

/// The type of a function of type `typ` applied to `arg_count` arguments.
pub fn get_return_type<E: TypeEnv>(env: &E, typ: &ArcType, arg_count: usize) -> (res: ArcType)
    requires
        return_type(env.infos(), typ@, arg_count as nat) is Some,
    ensures
        return_type(env.infos(), typ@, arg_count as nat) == Some(res@),
{
    let ghost infos = env.infos();
    let ghost (steps, end): (nat, Ty) = choose|n: nat, r: Ty|
        returns_to(infos, typ@, arg_count as nat, n, r);
    let ghost mut left: nat = steps;
    let mut current = typ.clone();
    let mut count: usize = arg_count;
    while count > 0
        invariant
            infos == env.infos(),
            returns_to(infos, current@, count as nat, left, end),
        decreases left,
    {
        let next = match current.as_function() {
            Some((_, ret)) => {
                count -= 1;
                ret.clone()
            },
            None => match remove_alias(env, &current) {
                Ok(Some(next)) => next,
                _ => current.clone(),
            },
        };
        proof {
            left = (left - 1) as nat;
        }
        current = next;
    }
    proof {
        return_type_is(infos, typ@, arg_count as nat, steps, end);
    }
    current
}

/// The type of a literal.
pub open spec fn literal_type(literal: Literal) -> BuiltinType {
    match literal {
        Literal::Byte(_) => BuiltinType::Byte,
        Literal::Int(_) => BuiltinType::Int,
        Literal::Float(_) => BuiltinType::Float,
        Literal::String(_) => BuiltinType::String,
        Literal::Char(_) => BuiltinType::Char,
    }
}

/// The type of `expr`, if it has one.
pub open spec fn expr_type(infos: Map<Seq<char>, AliasTy>, expr: SpannedExpr) -> Option<Ty>
    decreases expr,
{
    match expr.value {
        Expr::Ident(id) => Some(id.typ@),
        Expr::Literal(literal) => Some(Ty::Builtin(literal_type(literal))),
        Expr::IfElse(_, arm, _) => expr_type(infos, *arm),
        Expr::Tuple { typ, elems: _ } => Some(typ@),
        Expr::Infix(_, op, _) => return_type(infos, op.value.typ@, 2),
        Expr::LetBindings(_, body) => expr_type(infos, *body),
        Expr::App(func, args) => match expr_type(infos, *func) {
            Some(typ) => return_type(infos, typ, args@.len()),
            None => None,
        },
        Expr::Match(_, alts) => if alts@.len() > 0 {
            expr_type(infos, alts@[0].expr)
        } else {
            None
        },
        Expr::Projection(_, _, typ) => Some(typ@),
        Expr::Array(typ, _) => Some(typ@),
        Expr::Lambda(lambda) => Some(lambda.id.typ@),
        Expr::TypeBindings(_, body) => expr_type(infos, *body),
        Expr::Record { typ, types: _, exprs: _, base: _ } => Some(typ@),
        Expr::Block(exprs) => if exprs@.len() > 0 {
            expr_type(infos, exprs@[exprs@.len() - 1])
        } else {
            Some(Ty::Record(Box::new(Ty::EmptyRow)))
        },
        Expr::Do(do_expr) => expr_type(infos, *do_expr.body),
        Expr::Error => Some(Ty::Hole),
    }
}

/// The type of `expr`.
pub fn env_type_of<E: TypeEnv>(env: &E, expr: &SpannedExpr) -> (res: ArcType)
    requires
        expr_type(env.infos(), *expr) is Some,
    ensures
        expr_type(env.infos(), *expr) == Some(res@),
    decreases expr,
{
    match &expr.value {
        Expr::Ident(id) => id.typ.clone(),
        Expr::Literal(literal) => match literal {
            Literal::Byte(_) => Type::byte(),
            Literal::Int(_) => Type::int_(),
            Literal::Float(_) => Type::float(),
            Literal::String(_) => Type::string(),
            Literal::Char(_) => Type::char(),
        },
        Expr::IfElse(_, arm, _) => env_type_of(env, arm),
        Expr::Tuple { typ, elems: _ } => typ.clone(),
        Expr::Infix(_, op, _) => get_return_type(env, &op.value.typ, 2),
        Expr::LetBindings(_, body) => env_type_of(env, body),
        Expr::App(func, args) => {
            let typ = env_type_of(env, func);
            get_return_type(env, &typ, args.len())
        },
        Expr::Match(_, alts) => {
            assert(decreases_to!(alts@ => alts@[0]));
            env_type_of(env, &alts[0].expr)
        },
        Expr::Projection(_, _, typ) => typ.clone(),
        Expr::Array(typ, _) => typ.clone(),
        Expr::Lambda(lambda) => lambda.id.typ.clone(),
        Expr::TypeBindings(_, body) => env_type_of(env, body),
        Expr::Record { typ, types: _, exprs: _, base: _ } => typ.clone(),
        Expr::Block(exprs) => {
            if exprs.len() > 0 {
                assert(decreases_to!(exprs@ => exprs@[exprs@.len() - 1]));
                env_type_of(env, &exprs[exprs.len() - 1])
            } else {
                Type::unit()
            }
        },
        Expr::Do(do_expr) => env_type_of(env, &do_expr.body),
        Expr::Error => Type::hole(),
    }
}

/// The type of the value of `expr`, or that of no value.
pub fn env_type_of_option<E: TypeEnv>(env: &E, expr: &Option<Box<SpannedExpr>>) -> (res: ArcType)
    requires
        expr matches Some(expr) ==> expr_type(env.infos(), **expr) is Some,
    ensures
        match expr {
            Some(expr) => expr_type(env.infos(), **expr) == Some(res@),
            None => res@ == Ty::Record(Box::new(Ty::EmptyRow)),
        },
{
    match expr {
        Some(expr) => env_type_of(env, expr),
        None => Type::unit(),
    }
}

/// The type of what `pattern` matches, if it has one.
pub open spec fn pattern_type(infos: Map<Seq<char>, AliasTy>, pattern: SpannedPattern) -> Option<Ty>
    decreases pattern,
{
    match pattern.value {
        Pattern::As(_, inner) => pattern_type(infos, *inner),
        Pattern::Constructor(id, args) => return_type(infos, id.typ@, args@.len()),
        Pattern::Ident(id) => Some(id.typ@),
        Pattern::Record { typ, types: _, fields: _ } => Some(typ@),
        Pattern::Tuple { typ, elems: _ } => Some(typ@),
        Pattern::Error => Some(Ty::Hole),
    }
}

/// The type of what `pattern` matches.
pub fn pattern_type_of<E: TypeEnv>(env: &E, pattern: &SpannedPattern) -> (res: ArcType)
    requires
        pattern_type(env.infos(), *pattern) is Some,
    ensures
        pattern_type(env.infos(), *pattern) == Some(res@),
    decreases pattern,
{
    match &pattern.value {
        Pattern::As(_, inner) => pattern_type_of(env, inner),
        Pattern::Constructor(id, args) => get_return_type(env, &id.typ, args.len()),
        Pattern::Ident(id) => id.typ.clone(),
        Pattern::Record { typ, types: _, fields: _ } => typ.clone(),
        Pattern::Tuple { typ, elems: _ } => typ.clone(),
        Pattern::Error => Type::hole(),
    }
}

/// The type of a binding: the one that is written down, or else that of the name.
pub open spec fn binding_type(bind: ValueBinding) -> Option<Ty> {
    match bind.typ {
        Some(typ) => Some(typ.typ@),
        None => match bind.name.value {
            Pattern::Ident(id) => Some(id.typ@),
            _ => None,
        },
    }
}

/// The type of a binding.
pub fn binding_type_of(bind: &ValueBinding) -> (res: ArcType)
    requires
        binding_type(*bind) is Some,
    ensures
        binding_type(*bind) == Some(res@),
{
    match &bind.typ {
        Some(typ) => typ.typ.clone(),
        None => match &bind.name.value {
            Pattern::Ident(id) => id.typ.clone(),
            _ => Type::hole(),
        },
    }
}

/// The application of a function of type `t` to `count` arguments comes to an end after `n` steps:
/// with its type, or with nothing if it does not take so many.
pub open spec fn tries_to(
    infos: Map<Seq<char>, AliasTy>,
    t: Ty,
    count: nat,
    n: nat,
    res: Option<Ty>,
) -> bool
    decreases n,
{
    if count == 0 {
        n == 0 && res == Some(t)
    } else if lacks_argument(t) {
        false
    } else {
        match function_parts(t) {
            Some((_, _, ret)) => n > 0 && tries_to(
                infos,
                ret,
                (count - 1) as nat,
                (n - 1) as nat,
                res,
            ),
            None => match expanded(infos, t) {
                Some(next) => n > 0 && tries_to(infos, next, count, (n - 1) as nat, res),
                None => n == 0 && res is None,
            },
        }
    }
}

/// What an application comes to is determined by the function and the number of arguments.
pub proof fn tries_to_one(
    infos: Map<Seq<char>, AliasTy>,
    t: Ty,
    count: nat,
    n: nat,
    r: Option<Ty>,
    m: nat,
    s: Option<Ty>,
)
    requires
        tries_to(infos, t, count, n, r),
        tries_to(infos, t, count, m, s),
    ensures
        n == m,
        r == s,
    decreases n,
{
    if count > 0 {
        match function_parts(t) {
            Some((_, _, ret)) => {
                tries_to_one(
                    infos,
                    ret,
                    (count - 1) as nat,
                    (n - 1) as nat,
                    r,
                    (m - 1) as nat,
                    s,
                );
            },
            None => match expanded(infos, t) {
                Some(next) => {
                    tries_to_one(infos, next, count, (n - 1) as nat, r, (m - 1) as nat, s);
                },
                None => {},
            },
        }
    }
}

/// What an application comes to, if it comes to an end.
pub open spec fn tried_return(
    infos: Map<Seq<char>, AliasTy>,
    t: Ty,
    count: nat,
) -> Option<Option<Ty>> {
    if exists|n: nat, r: Option<Ty>| tries_to(infos, t, count, n, r) {
        Some((choose|n: nat, r: Option<Ty>| tries_to(infos, t, count, n, r)).1)
    } else {
        None
    }
}

proof fn tried_return_is(infos: Map<Seq<char>, AliasTy>, t: Ty, count: nat, n: nat, r: Option<Ty>)
    requires
        tries_to(infos, t, count, n, r),
    ensures
        tried_return(infos, t, count) == Some(r),
{
    let (m, s) = choose|n: nat, r: Option<Ty>| tries_to(infos, t, count, n, r);
    tries_to_one(infos, t, count, n, r, m, s);
}

pub open spec fn view_option(typ: Option<ArcType>) -> Option<Ty> {
    match typ {
        Some(typ) => Some(typ@),
        None => None,
    }
}

/// The type of a function of type `typ` applied to `arg_count` arguments, if it takes so many.
pub fn try_return_type<E: TypeEnv>(env: &E, typ: &ArcType, arg_count: usize) -> (res: Option<
    ArcType,
>)
    requires
        tried_return(env.infos(), typ@, arg_count as nat) is Some,
    ensures
        tried_return(env.infos(), typ@, arg_count as nat) == Some(view_option(res)),
{
    let ghost infos = env.infos();
    let ghost (steps, end): (nat, Option<Ty>) = choose|n: nat, r: Option<Ty>|
        tries_to(infos, typ@, arg_count as nat, n, r);
    let ghost mut left: nat = steps;
    let mut current = typ.clone();
    let mut count: usize = arg_count;
    proof {
        tried_return_is(infos, typ@, arg_count as nat, steps, end);
    }
    while count > 0
        invariant
            infos == env.infos(),
            tries_to(infos, current@, count as nat, left, end),
            tried_return(infos, typ@, arg_count as nat) == Some(end),
        decreases left,
    {
        let next = match current.as_function() {
            Some((_, ret)) => {
                count -= 1;
                ret.clone()
            },
            None => match remove_alias(env, &current) {
                Ok(Some(next)) => next,
                _ => {
                    return None;
                },
            },
        };
        proof {
            left = (left - 1) as nat;
        }
        current = next;
    }
    Some(current)
}

/// The type of `expr`, or nothing if it has none, as far as its applications come to an end.
pub open spec fn tried_type(infos: Map<Seq<char>, AliasTy>, expr: SpannedExpr) -> Option<Option<Ty>>
    decreases expr,
{
    match expr.value {
        Expr::Ident(id) => Some(Some(id.typ@)),
        Expr::Literal(literal) => Some(Some(Ty::Builtin(literal_type(literal)))),
        Expr::IfElse(_, arm, _) => tried_type(infos, *arm),
        Expr::Tuple { typ, elems: _ } => Some(Some(typ@)),
        Expr::Infix(_, op, _) => tried_return(infos, op.value.typ@, 2),
        Expr::LetBindings(_, body) => tried_type(infos, *body),
        Expr::App(func, args) => match tried_type(infos, *func) {
            Some(Some(typ)) => tried_return(infos, typ, args@.len()),
            other => other,
        },
        Expr::Match(_, alts) => if alts@.len() > 0 {
            tried_type(infos, alts@[0].expr)
        } else {
            Some(None)
        },
        Expr::Projection(_, _, typ) => Some(Some(typ@)),
        Expr::Array(typ, _) => Some(Some(typ@)),
        Expr::Lambda(lambda) => Some(Some(lambda.id.typ@)),
        Expr::TypeBindings(_, body) => tried_type(infos, *body),
        Expr::Record { typ, types: _, exprs: _, base: _ } => Some(Some(typ@)),
        Expr::Block(exprs) => if exprs@.len() > 0 {
            tried_type(infos, exprs@[exprs@.len() - 1])
        } else {
            Some(Some(Ty::Record(Box::new(Ty::EmptyRow))))
        },
        Expr::Do(do_expr) => tried_type(infos, *do_expr.body),
        Expr::Error => Some(Some(Ty::Hole)),
    }
}

/// The type of `expr`, if it has one.
pub fn try_type_of<E: TypeEnv>(env: &E, expr: &SpannedExpr) -> (res: Option<ArcType>)
    requires
        tried_type(env.infos(), *expr) is Some,
    ensures
        tried_type(env.infos(), *expr) == Some(view_option(res)),
    decreases expr,
{
    match &expr.value {
        Expr::Ident(id) => Some(id.typ.clone()),
        Expr::Literal(literal) => match literal {
            Literal::Byte(_) => Some(Type::byte()),
            Literal::Int(_) => Some(Type::int_()),
            Literal::Float(_) => Some(Type::float()),
            Literal::String(_) => Some(Type::string()),
            Literal::Char(_) => Some(Type::char()),
        },
        Expr::IfElse(_, arm, _) => try_type_of(env, arm),
        Expr::Tuple { typ, elems: _ } => Some(typ.clone()),
        Expr::Infix(_, op, _) => try_return_type(env, &op.value.typ, 2),
        Expr::LetBindings(_, body) => try_type_of(env, body),
        Expr::App(func, args) => match try_type_of(env, func) {
            Some(typ) => try_return_type(env, &typ, args.len()),
            None => None,
        },
        Expr::Match(_, alts) => {
            if alts.len() > 0 {
                assert(decreases_to!(alts@ => alts@[0]));
                try_type_of(env, &alts[0].expr)
            } else {
                None
            }
        },
        Expr::Projection(_, _, typ) => Some(typ.clone()),
        Expr::Array(typ, _) => Some(typ.clone()),
        Expr::Lambda(lambda) => Some(lambda.id.typ.clone()),
        Expr::TypeBindings(_, body) => try_type_of(env, body),
        Expr::Record { typ, types: _, exprs: _, base: _ } => Some(typ.clone()),
        Expr::Block(exprs) => {
            if exprs.len() > 0 {
                assert(decreases_to!(exprs@ => exprs@[exprs@.len() - 1]));
                try_type_of(env, &exprs[exprs.len() - 1])
            } else {
                Some(Type::unit())
            }
        },
        Expr::Do(do_expr) => try_type_of(env, &do_expr.body),
        Expr::Error => Some(Type::hole()),
    }
}

} // verus!
