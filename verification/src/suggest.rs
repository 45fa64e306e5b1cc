//! Questions about what stands at a position of a syntax tree, and suggestions for it.

use vstd::prelude::*;
use vstd::string::*;
use crate::ast::{
    Alternative, Expr, ExprField, Pattern, PatternField, PatternTypeField, SpannedExpr,
    SpannedPattern, TypeBinding, ValueBinding,
};
use crate::completion::{
    complete_at, completed, matches_view, scope_view, spot_of, Found, Match, Search, Spot,
};
use crate::kind::{ArcKind, Kind};
use crate::pos::{BytePos, Span};
use crate::resolve::TypeEnv;
use crate::scope::{is_shown, kinded_names, typed_names, visible};
use crate::symbol::{last_part, Symbol};
use crate::text::{begins, same, starts_with};
use crate::typed::{env_type_of, expr_type, pattern_type, pattern_type_of};
use crate::types::model::{AliasDataTy, AliasTy, FieldTy, Ty};
use crate::types::rows::{row_fields, row_iter, type_field_iter, type_fields};
use crate::types::{AliasData, ArcType, Type};

verus! {

/// What was found, or else what encloses it.
pub open spec fn target(search: Search) -> Option<Spot> {
    match search.found {
        Some(Some(spot)) => Some(spot),
        Some(None) => if search.enclosing.len() > 0 {
            Some(search.enclosing.last())
        } else {
            None
        },
        None => None,
    }
}

/// The search of what was found.
pub open spec fn found_view<'a>(found: Found<'a>) -> Search {
    Search {
        found: Some(spot_of(found.match_)),
        enclosing: matches_view(found.enclosing_matches@),
        seen: scope_view(found.in_scope@),
    }
}

impl<'a> Found<'a> {
    /// What was found, or else what encloses it.
    pub(crate) fn target(&self) -> (res: &Match<'a>)
        requires
            target(found_view(*self)) is Some,
        ensures
            target(found_view(*self)) == Some(res@),
    {
        match &self.match_ {
            Some(found) => found,
            None => &self.enclosing_matches[self.enclosing_matches.len() - 1],
        }
    }
}

/// Asks for the type of what is found.
pub struct TypeAt;

/// Asks for the name of what is found.
pub struct IdentAt;

/// Asks for the span of what is found.
pub struct SpanAt;

/// The type of `spot`, if it is something that has one.
pub open spec fn spot_type(infos: Map<Seq<char>, AliasTy>, spot: Spot) -> Option<Ty> {
    match spot {
        Spot::Expr(expr) => expr_type(infos, expr),
        Spot::Pattern(pattern) => pattern_type(infos, pattern),
        Spot::Ident(_, _, typ) => Some(typ),
        Spot::Type(..) => None,
    }
}

/// The name of `spot`, if it is something that has one.
pub open spec fn spot_name(spot: Spot) -> Option<Seq<char>> {
    match spot {
        Spot::Expr(expr) => match expr.value {
            Expr::Ident(id) => Some(id.name@),
            _ => None,
        },
        Spot::Ident(_, id, _) => Some(id),
        Spot::Pattern(pattern) => match pattern.value {
            Pattern::Ident(id) => Some(id.name@),
            Pattern::As(id, _) => Some(id@),
            _ => None,
        },
        Spot::Type(..) => None,
    }
}

/// The span of `spot`.
pub open spec fn spot_span(spot: Spot) -> Span {
    match spot {
        Spot::Expr(expr) => expr.span,
        Spot::Pattern(pattern) => pattern.span,
        Spot::Ident(span, _, _) => span,
        Spot::Type(span, _, _) => span,
    }
}

impl TypeAt {
    /// The type of `found`. A type has none.
    pub fn match_extract<'a, E: TypeEnv>(&self, env: &E, found: &Match<'a>) -> (res: Result<
        ArcType,
        (),
    >)
        requires
            found@ is Type || spot_type(env.infos(), found@) is Some,
        ensures
            match res {
                Ok(typ) => spot_type(env.infos(), found@) == Some(typ@),
                Err(()) => found@ is Type,
            },
    {
        match found {
            Match::Expr(expr) => Ok(env_type_of(env, expr)),
            Match::Pattern(pattern) => Ok(pattern_type_of(env, pattern)),
            Match::Ident(_, _, typ) => Ok((*typ).clone()),
            Match::Type(..) => Err(()),
        }
    }
}

impl IdentAt {
    /// The name of `found`.
    pub fn match_extract<'a>(&self, found: &Match<'a>) -> (res: Result<Symbol, ()>)
        ensures
            match res {
                Ok(name) => spot_name(found@) == Some(name@),
                Err(()) => spot_name(found@) is None,
            },
    {
        match found {
            Match::Expr(expr) => match &expr.value {
                Expr::Ident(id) => Ok(id.name.clone()),
                _ => Err(()),
            },
            Match::Ident(_, id, _) => Ok((*id).clone()),
            Match::Pattern(pattern) => match &pattern.value {
                Pattern::Ident(id) => Ok(id.name.clone()),
                Pattern::As(id, _) => Ok(id.clone()),
                _ => Err(()),
            },
            Match::Type(..) => Err(()),
        }
    }

    /// The name of what was found, or else of what encloses it.
    pub fn extract<'a>(&self, found: &Found<'a>) -> (res: Result<Symbol, ()>)
        requires
            target(found_view(*found)) is Some,
        ensures
            match res {
                Ok(name) => spot_name(target(found_view(*found))->0) == Some(name@),
                Err(()) => spot_name(target(found_view(*found))->0) is None,
            },
    {
        self.match_extract(found.target())
    }
}

impl SpanAt {
    /// The span of `found`.
    pub fn match_extract<'a>(&self, found: &Match<'a>) -> (res: Result<Span, ()>)
        ensures
            res == Ok::<Span, ()>(spot_span(found@)),
    {
        match found {
            Match::Expr(expr) => Ok(expr.span),
            Match::Ident(span, _, _) => Ok(*span),
            Match::Type(span, _, _) => Ok(*span),
            Match::Pattern(pattern) => Ok(pattern.span),
        }
    }

    /// The span of what was found, or else of what encloses it.
    pub fn extract<'a>(&self, found: &Found<'a>) -> (res: Result<Span, ()>)
        requires
            target(found_view(*found)) is Some,
        ensures
            res == Ok::<Span, ()>(spot_span(target(found_view(*found))->0)),
    {
        self.match_extract(found.target())
    }
}

/// The search for `pos` in `expr` comes to an end, and at something if it finds anything.
pub open spec fn searchable(expr: SpannedExpr, pos: BytePos) -> bool {
    &&& completed(expr, pos) is Some
    &&& completed(expr, pos)->0.found is Some ==> target(completed(expr, pos)->0) is Some
}

/// What stands at `pos` in `expr`, or else what encloses it.
pub open spec fn spot_at(expr: SpannedExpr, pos: BytePos) -> Option<Spot> {
    target(completed(expr, pos)->0)
}

/// The span of what stands at `pos` in `expr`.
pub fn span_at(expr: &SpannedExpr, pos: BytePos) -> (res: Result<Span, ()>)
    requires
        searchable(*expr, pos),
    ensures
        match spot_at(*expr, pos) {
            Some(spot) => res == Ok::<Span, ()>(spot_span(spot)),
            None => res is Err,
        },
{
    match complete_at(expr, pos) {
        Ok(found) => {
            assert(completed(*expr, pos) == Some(found_view(found)));
            SpanAt.extract(&found)
        },
        Err(()) => Err(()),
    }
}

/// The name of what stands at `pos` in `expr`.
pub fn ident_at(expr: &SpannedExpr, pos: BytePos) -> (res: Result<Symbol, ()>)
    requires
        searchable(*expr, pos),
    ensures
        match res {
            Ok(name) => spot_at(*expr, pos) matches Some(spot) && spot_name(spot) == Some(name@),
            Err(()) => spot_at(*expr, pos) matches Some(spot) ==> spot_name(spot) is None,
        },
{
    match complete_at(expr, pos) {
        Ok(found) => {
            assert(completed(*expr, pos) == Some(found_view(found)));
            IdentAt.extract(&found)
        },
        Err(()) => Err(()),
    }
}

/// The type of what stands at `pos` in `expr`.
pub fn find<E: TypeEnv>(env: &E, expr: &SpannedExpr, pos: BytePos) -> (res: Result<ArcType, ()>)
    requires
        searchable(*expr, pos),
        spot_at(*expr, pos) matches Some(spot) ==> spot is Type || spot_type(env.infos(), spot)
            is Some,
    ensures
        match res {
            Ok(typ) => spot_at(*expr, pos) matches Some(spot) && spot_type(env.infos(), spot)
                == Some(typ@),
            Err(()) => spot_at(*expr, pos) matches Some(spot) ==> spot is Type,
        },
{
    match complete_at(expr, pos) {
        Ok(found) => {
            assert(completed(*expr, pos) == Some(found_view(found)));
            TypeAt.match_extract(env, found.target())
        },
        Err(()) => Err(()),
    }
}

/// Where `name` is used in `expr` or bound in it, in order.
pub open spec fn occurrences(expr: SpannedExpr, name: Seq<char>) -> Seq<Span>
    decreases expr, 0nat,
{
    match expr.value {
        Expr::Ident(id) => if id.name@ == name {
            seq![expr.span]
        } else {
            Seq::empty()
        },
        Expr::App(func, args) => occurrences(*func, name) + occurrences_all(
            args@,
            args@.len(),
            name,
        ),
        Expr::IfElse(pred, if_true, if_false) => occurrences(*pred, name) + occurrences(
            *if_true,
            name,
        ) + occurrences(*if_false, name),
        Expr::Match(value, alts) => occurrences(*value, name) + occurrences_alternatives(
            alts@,
            alts@.len(),
            name,
        ),
        Expr::Infix(l, _, r) => occurrences(*l, name) + occurrences(*r, name),
        Expr::LetBindings(binds, body) => occurrences_bindings(binds@, binds@.len(), name)
            + occurrences(*body, name),
        Expr::TypeBindings(_, body) => occurrences(*body, name),
        Expr::Projection(value, _, _) => occurrences(*value, name),
        Expr::Array(_, exprs) => occurrences_all(exprs@, exprs@.len(), name),
        Expr::Record { typ: _, types: _, exprs, base } => occurrences_fields(
            exprs@,
            exprs@.len(),
            name,
        ) + match base {
            Some(base) => occurrences(*base, name),
            None => Seq::empty(),
        },
        Expr::Lambda(lambda) => occurrences(*lambda.body, name),
        Expr::Tuple { typ: _, elems } => occurrences_all(elems@, elems@.len(), name),
        Expr::Block(exprs) => occurrences_all(exprs@, exprs@.len(), name),
        Expr::Do(do_expr) => occurrences(*do_expr.bound, name) + occurrences(*do_expr.body, name),
        Expr::Literal(_) => Seq::empty(),
        Expr::Error => Seq::empty(),
    }
}

pub open spec fn occurrences_all(exprs: Seq<SpannedExpr>, n: nat, name: Seq<char>) -> Seq<Span>
    decreases exprs, n,
{
    if n == 0 || n > exprs.len() {
        Seq::empty()
    } else {
        occurrences_all(exprs, (n - 1) as nat, name) + occurrences(exprs[n - 1], name)
    }
}

pub open spec fn occurrences_alternatives(alts: Seq<Alternative>, n: nat, name: Seq<char>) -> Seq<Span>
    decreases alts, n,
{
    if n == 0 || n > alts.len() {
        Seq::empty()
    } else {
        occurrences_alternatives(alts, (n - 1) as nat, name) + pattern_occurrences(
            alts[n - 1].pattern,
            name,
        ) + occurrences(alts[n - 1].expr, name)
    }
}

pub open spec fn occurrences_bindings(binds: Seq<ValueBinding>, n: nat, name: Seq<char>) -> Seq<Span>
    decreases binds, n,
{
    if n == 0 || n > binds.len() {
        Seq::empty()
    } else {
        occurrences_bindings(binds, (n - 1) as nat, name) + pattern_occurrences(
            binds[n - 1].name,
            name,
        ) + occurrences(binds[n - 1].expr, name)
    }
}

pub open spec fn occurrences_fields(fields: Seq<ExprField>, n: nat, name: Seq<char>) -> Seq<Span>
    decreases fields, n,
{
    if n == 0 || n > fields.len() {
        Seq::empty()
    } else {
        occurrences_fields(fields, (n - 1) as nat, name) + match fields[n - 1].value {
            Some(expr) => occurrences(expr, name),
            None => Seq::empty(),
        }
    }
}

/// Where `name` is bound in `pattern`. Directly inside of a pattern that is bound to it, it is not
/// looked for.
pub open spec fn pattern_occurrences(pattern: SpannedPattern, name: Seq<char>) -> Seq<Span>
    decreases pattern, 2nat,
{
    match pattern.value {
        Pattern::As(id, inner) => if id@ == name {
            seq![pattern.span] + inner_occurrences(*inner, name)
        } else {
            pattern_occurrences(*inner, name)
        },
        Pattern::Ident(id) => if id.name@ == name {
            seq![pattern.span]
        } else {
            Seq::empty()
        },
        _ => inner_occurrences(pattern, name),
    }
}

/// Where `name` is bound in the parts of `pattern`.
pub open spec fn inner_occurrences(pattern: SpannedPattern, name: Seq<char>) -> Seq<Span>
    decreases pattern, 1nat,
{
    match pattern.value {
        Pattern::As(_, inner) => pattern_occurrences(*inner, name),
        Pattern::Constructor(_, args) => patterns_occurrences(args@, args@.len(), name),
        Pattern::Record { typ: _, types: _, fields } => pattern_field_occurrences(
            fields@,
            fields@.len(),
            name,
        ),
        Pattern::Tuple { typ: _, elems } => patterns_occurrences(elems@, elems@.len(), name),
        _ => Seq::empty(),
    }
}

pub open spec fn patterns_occurrences(
    patterns: Seq<SpannedPattern>,
    n: nat,
    name: Seq<char>,
) -> Seq<Span>
    decreases patterns, n,
{
    if n == 0 || n > patterns.len() {
        Seq::empty()
    } else {
        patterns_occurrences(patterns, (n - 1) as nat, name) + pattern_occurrences(
            patterns[n - 1],
            name,
        )
    }
}

pub open spec fn pattern_field_occurrences(
    fields: Seq<PatternField>,
    n: nat,
    name: Seq<char>,
) -> Seq<Span>
    decreases fields, n,
{
    if n == 0 || n > fields.len() {
        Seq::empty()
    } else {
        pattern_field_occurrences(fields, (n - 1) as nat, name) + match fields[n - 1].value {
            Some(pattern) => pattern_occurrences(pattern, name),
            None => Seq::empty(),
        }
    }
}

/// A place where something is named: where it is, the name, and the name of the pattern that it
/// stands directly inside of.
pub type Mention = (Span, Seq<char>, Option<Seq<char>>);

/// All places in `expr` where a value is named, in order.
pub open spec fn mentions(expr: SpannedExpr) -> Seq<Mention>
    decreases expr, 0nat,
{
    match expr.value {
        Expr::Ident(id) => seq![(expr.span, id.name@, None)],
        Expr::App(func, args) => mentions(*func) + mentions_all(args@, args@.len()),
        Expr::IfElse(pred, if_true, if_false) => mentions(*pred) + mentions(*if_true) + mentions(
            *if_false,
        ),
        Expr::Match(value, alts) => mentions(*value) + mentions_alternatives(alts@, alts@.len()),
        Expr::Infix(l, _, r) => mentions(*l) + mentions(*r),
        Expr::LetBindings(binds, body) => mentions_bindings(binds@, binds@.len()) + mentions(*body),
        Expr::TypeBindings(_, body) => mentions(*body),
        Expr::Projection(value, _, _) => mentions(*value),
        Expr::Array(_, exprs) => mentions_all(exprs@, exprs@.len()),
        Expr::Record { typ: _, types: _, exprs, base } => mentions_fields(exprs@, exprs@.len())
            + match base {
            Some(base) => mentions(*base),
            None => Seq::empty(),
        },
        Expr::Lambda(lambda) => mentions(*lambda.body),
        Expr::Tuple { typ: _, elems } => mentions_all(elems@, elems@.len()),
        Expr::Block(exprs) => mentions_all(exprs@, exprs@.len()),
        Expr::Do(do_expr) => mentions(*do_expr.bound) + mentions(*do_expr.body),
        Expr::Literal(_) => Seq::empty(),
        Expr::Error => Seq::empty(),
    }
}

pub open spec fn mentions_all(exprs: Seq<SpannedExpr>, n: nat) -> Seq<Mention>
    decreases exprs, n,
{
    if n == 0 || n > exprs.len() {
        Seq::empty()
    } else {
        mentions_all(exprs, (n - 1) as nat) + mentions(exprs[n - 1])
    }
}

pub open spec fn mentions_alternatives(alts: Seq<Alternative>, n: nat) -> Seq<Mention>
    decreases alts, n,
{
    if n == 0 || n > alts.len() {
        Seq::empty()
    } else {
        mentions_alternatives(alts, (n - 1) as nat) + pattern_mentions(alts[n - 1].pattern, None)
            + mentions(alts[n - 1].expr)
    }
}

pub open spec fn mentions_bindings(binds: Seq<ValueBinding>, n: nat) -> Seq<Mention>
    decreases binds, n,
{
    if n == 0 || n > binds.len() {
        Seq::empty()
    } else {
        mentions_bindings(binds, (n - 1) as nat) + pattern_mentions(binds[n - 1].name, None)
            + mentions(binds[n - 1].expr)
    }
}

pub open spec fn mentions_fields(fields: Seq<ExprField>, n: nat) -> Seq<Mention>
    decreases fields, n,
{
    if n == 0 || n > fields.len() {
        Seq::empty()
    } else {
        mentions_fields(fields, (n - 1) as nat) + match fields[n - 1].value {
            Some(expr) => mentions(expr),
            None => Seq::empty(),
        }
    }
}

/// All places in `pattern` where a value is bound, in order. It stands directly inside of a pattern
/// that is bound to `outer`.
pub open spec fn pattern_mentions(pattern: SpannedPattern, outer: Option<Seq<char>>) -> Seq<Mention>
    decreases pattern, 0nat,
{
    match pattern.value {
        Pattern::As(id, inner) => seq![(pattern.span, id@, outer)] + pattern_mentions(
            *inner,
            if outer == Some(id@) {
                None
            } else {
                Some(id@)
            },
        ),
        Pattern::Ident(id) => seq![(pattern.span, id.name@, outer)],
        Pattern::Constructor(_, args) => patterns_mentions(args@, args@.len()),
        Pattern::Record { typ: _, types: _, fields } => pattern_field_mentions(
            fields@,
            fields@.len(),
        ),
        Pattern::Tuple { typ: _, elems } => patterns_mentions(elems@, elems@.len()),
        _ => Seq::empty(),
    }
}

pub open spec fn patterns_mentions(patterns: Seq<SpannedPattern>, n: nat) -> Seq<Mention>
    decreases patterns, n,
{
    if n == 0 || n > patterns.len() {
        Seq::empty()
    } else {
        patterns_mentions(patterns, (n - 1) as nat) + pattern_mentions(patterns[n - 1], None)
    }
}

pub open spec fn pattern_field_mentions(fields: Seq<PatternField>, n: nat) -> Seq<Mention>
    decreases fields, n,
{
    if n == 0 || n > fields.len() {
        Seq::empty()
    } else {
        pattern_field_mentions(fields, (n - 1) as nat) + match fields[n - 1].value {
            Some(pattern) => pattern_mentions(pattern, None),
            None => Seq::empty(),
        }
    }
}

/// Where `name` is named in `all`, but directly inside of a pattern that is bound to it too.
pub open spec fn spans_of(all: Seq<Mention>, name: Seq<char>) -> Seq<Span>
    decreases all.len(),
{
    if all.len() == 0 {
        Seq::empty()
    } else {
        let before = spans_of(all.drop_last(), name);
        if all.last().1 == name && all.last().2 != Some(name) {
            before.push(all.last().0)
        } else {
            before
        }
    }
}

proof fn spans_of_both(a: Seq<Mention>, b: Seq<Mention>, name: Seq<char>)
    ensures
        spans_of(a + b, name) == spans_of(a, name) + spans_of(b, name),
    decreases b.len(),
{
    if b.len() == 0 {
        assert(a + b =~= a);
        assert(spans_of(a, name) + spans_of(b, name) =~= spans_of(a, name));
    } else {
        assert((a + b).drop_last() =~= a + b.drop_last());
        assert((a + b).last() == b.last());
        spans_of_both(a, b.drop_last(), name);
        assert(spans_of(a + b, name) =~= spans_of(a, name) + spans_of(b, name));
    }
}

proof fn spans_of_one(mention: Mention, name: Seq<char>)
    ensures
        spans_of(seq![mention], name) == if mention.1 == name && mention.2 != Some(name) {
            seq![mention.0]
        } else {
            Seq::empty()
        },
{
    let all = seq![mention];
    assert(all.drop_last() =~= Seq::empty());
    assert(spans_of(all.drop_last(), name) =~= Seq::empty());
    assert(spans_of(all, name) =~= if mention.1 == name && mention.2 != Some(name) {
        seq![mention.0]
    } else {
        Seq::empty()
    });
}

/// The uses of a name are all the places in the expression where it is named, each of them once and
/// in order, and no other.
pub proof fn every_use_is_found(expr: SpannedExpr, name: Seq<char>)
    ensures
        occurrences(expr, name) == spans_of(mentions(expr), name),
    decreases expr, 0nat,
{
    match expr.value {
        Expr::Ident(id) => spans_of_one((expr.span, id.name@, None), name),
        Expr::App(func, args) => {
            every_use_is_found(*func, name);
            every_use_in_all(args@, args@.len(), name);
            spans_of_both(mentions(*func), mentions_all(args@, args@.len()), name);
        },
        Expr::IfElse(pred, if_true, if_false) => {
            every_use_is_found(*pred, name);
            every_use_is_found(*if_true, name);
            every_use_is_found(*if_false, name);
            spans_of_both(mentions(*pred), mentions(*if_true), name);
            spans_of_both(mentions(*pred) + mentions(*if_true), mentions(*if_false), name);
        },
        Expr::Match(value, alts) => {
            every_use_is_found(*value, name);
            every_use_in_alternatives(alts@, alts@.len(), name);
            spans_of_both(mentions(*value), mentions_alternatives(alts@, alts@.len()), name);
        },
        Expr::Infix(l, _, r) => {
            every_use_is_found(*l, name);
            every_use_is_found(*r, name);
            spans_of_both(mentions(*l), mentions(*r), name);
        },
        Expr::LetBindings(binds, body) => {
            every_use_in_bindings(binds@, binds@.len(), name);
            every_use_is_found(*body, name);
            spans_of_both(mentions_bindings(binds@, binds@.len()), mentions(*body), name);
        },
        Expr::TypeBindings(_, body) => every_use_is_found(*body, name),
        Expr::Projection(value, _, _) => every_use_is_found(*value, name),
        Expr::Array(_, exprs) => every_use_in_all(exprs@, exprs@.len(), name),
        Expr::Record { typ: _, types: _, exprs, base } => {
            every_use_in_fields(exprs@, exprs@.len(), name);
            let rest = match base {
                Some(base) => mentions(*base),
                None => Seq::empty(),
            };
            if let Some(base) = base {
                every_use_is_found(*base, name);
            }
            spans_of_both(mentions_fields(exprs@, exprs@.len()), rest, name);
        },
        Expr::Lambda(lambda) => every_use_is_found(*lambda.body, name),
        Expr::Tuple { typ: _, elems } => every_use_in_all(elems@, elems@.len(), name),
        Expr::Block(exprs) => every_use_in_all(exprs@, exprs@.len(), name),
        Expr::Do(do_expr) => {
            every_use_is_found(*do_expr.bound, name);
            every_use_is_found(*do_expr.body, name);
            spans_of_both(mentions(*do_expr.bound), mentions(*do_expr.body), name);
        },
        Expr::Literal(_) => {},
        Expr::Error => {},
    }
}

proof fn every_use_in_all(exprs: Seq<SpannedExpr>, n: nat, name: Seq<char>)
    ensures
        occurrences_all(exprs, n, name) == spans_of(mentions_all(exprs, n), name),
    decreases exprs, n,
{
    if 0 < n <= exprs.len() {
        every_use_in_all(exprs, (n - 1) as nat, name);
        every_use_is_found(exprs[n - 1], name);
        spans_of_both(mentions_all(exprs, (n - 1) as nat), mentions(exprs[n - 1]), name);
    }
}

proof fn every_use_in_alternatives(alts: Seq<Alternative>, n: nat, name: Seq<char>)
    ensures
        occurrences_alternatives(alts, n, name) == spans_of(mentions_alternatives(alts, n), name),
    decreases alts, n,
{
    if 0 < n <= alts.len() {
        let before = mentions_alternatives(alts, (n - 1) as nat);
        let pattern = pattern_mentions(alts[n - 1].pattern, None);
        every_use_in_alternatives(alts, (n - 1) as nat, name);
        every_use_in_pattern(alts[n - 1].pattern, None, name);
        every_use_is_found(alts[n - 1].expr, name);
        spans_of_both(before, pattern, name);
        spans_of_both(before + pattern, mentions(alts[n - 1].expr), name);
    }
}

proof fn every_use_in_bindings(binds: Seq<ValueBinding>, n: nat, name: Seq<char>)
    ensures
        occurrences_bindings(binds, n, name) == spans_of(mentions_bindings(binds, n), name),
    decreases binds, n,
{
    if 0 < n <= binds.len() {
        let before = mentions_bindings(binds, (n - 1) as nat);
        let pattern = pattern_mentions(binds[n - 1].name, None);
        every_use_in_bindings(binds, (n - 1) as nat, name);
        every_use_in_pattern(binds[n - 1].name, None, name);
        every_use_is_found(binds[n - 1].expr, name);
        spans_of_both(before, pattern, name);
        spans_of_both(before + pattern, mentions(binds[n - 1].expr), name);
    }
}

proof fn every_use_in_fields(fields: Seq<ExprField>, n: nat, name: Seq<char>)
    ensures
        occurrences_fields(fields, n, name) == spans_of(mentions_fields(fields, n), name),
    decreases fields, n,
{
    if 0 < n <= fields.len() {
        every_use_in_fields(fields, (n - 1) as nat, name);
        let value = match fields[n - 1].value {
            Some(expr) => mentions(expr),
            None => Seq::empty(),
        };
        if let Some(expr) = fields[n - 1].value {
            every_use_is_found(expr, name);
        }
        spans_of_both(mentions_fields(fields, (n - 1) as nat), value, name);
    }
}

proof fn every_use_in_pattern(pattern: SpannedPattern, outer: Option<Seq<char>>, name: Seq<char>)
    ensures
        spans_of(pattern_mentions(pattern, outer), name) == if outer == Some(name) {
            inner_occurrences(pattern, name)
        } else {
            pattern_occurrences(pattern, name)
        },
    decreases pattern, 0nat,
{
    reveal_with_fuel(pattern_occurrences, 2);
    match pattern.value {
        Pattern::As(id, inner) => {
            let own: Mention = (pattern.span, id@, outer);
            let next = if outer == Some(id@) {
                None
            } else {
                Some(id@)
            };
            every_use_in_pattern(*inner, next, name);
            spans_of_one(own, name);
            spans_of_both(seq![own], pattern_mentions(*inner, next), name);
            let within = spans_of(pattern_mentions(*inner, next), name);
            assert(Seq::<Span>::empty() + within =~= within);
        },
        Pattern::Ident(id) => spans_of_one((pattern.span, id.name@, outer), name),
        Pattern::Constructor(_, args) => every_use_in_patterns(args@, args@.len(), name),
        Pattern::Record { typ: _, types: _, fields } => {
            every_use_in_pattern_fields(fields@, fields@.len(), name);
        },
        Pattern::Tuple { typ: _, elems } => every_use_in_patterns(elems@, elems@.len(), name),
        _ => {},
    }
}

proof fn every_use_in_patterns(patterns: Seq<SpannedPattern>, n: nat, name: Seq<char>)
    ensures
        patterns_occurrences(patterns, n, name) == spans_of(patterns_mentions(patterns, n), name),
    decreases patterns, n,
{
    if 0 < n <= patterns.len() {
        every_use_in_patterns(patterns, (n - 1) as nat, name);
        every_use_in_pattern(patterns[n - 1], None, name);
        spans_of_both(
            patterns_mentions(patterns, (n - 1) as nat),
            pattern_mentions(patterns[n - 1], None),
            name,
        );
    }
}

proof fn every_use_in_pattern_fields(fields: Seq<PatternField>, n: nat, name: Seq<char>)
    ensures
        pattern_field_occurrences(fields, n, name) == spans_of(
            pattern_field_mentions(fields, n),
            name,
        ),
    decreases fields, n,
{
    if 0 < n <= fields.len() {
        every_use_in_pattern_fields(fields, (n - 1) as nat, name);
        let value = match fields[n - 1].value {
            Some(pattern) => pattern_mentions(pattern, None),
            None => Seq::empty(),
        };
        if let Some(pattern) = fields[n - 1].value {
            every_use_in_pattern(pattern, None, name);
        }
        spans_of_both(pattern_field_mentions(fields, (n - 1) as nat), value, name);
    }
}

/// Collects the uses of a name.
struct ExtractIdents<'a> {
    result: Vec<Span>,
    symbol: &'a Symbol,
}

impl<'a> ExtractIdents<'a> {
    fn visit_all(&mut self, exprs: &Vec<SpannedExpr>)
        ensures
            final(self).symbol == old(self).symbol,
            final(self).result@ == old(self).result@ + occurrences_all(
                exprs@,
                exprs@.len(),
                old(self).symbol@,
            ),
        decreases exprs@, 0nat,
    {
        let ghost start = self.result@;
        let mut i: usize = 0;
        while i < exprs.len()
            invariant
                i <= exprs@.len(),
                self.symbol == old(self).symbol,
                self.result@ =~= start + occurrences_all(exprs@, i as nat, self.symbol@),
            decreases exprs@.len() - i,
        {
            assert(decreases_to!(exprs@ => exprs@[i as int]));
            self.visit_expr(&exprs[i]);
            i += 1;
        }
    }

    #[verifier::rlimit(30)]
    fn visit_expr(&mut self, e: &SpannedExpr)
        ensures
            final(self).symbol == old(self).symbol,
            final(self).result@ == old(self).result@ + occurrences(*e, old(self).symbol@),
        decreases e, 0nat,
    {
        let ghost start = self.result@;
        let ghost name = self.symbol@;
        match &e.value {
            Expr::Ident(id) => {
                if id.name == *self.symbol {
                    self.result.push(e.span);
                }
            },
            Expr::App(func, args) => {
                self.visit_expr(func);
                self.visit_all(args);
            },
            Expr::IfElse(pred, if_true, if_false) => {
                self.visit_expr(pred);
                self.visit_expr(if_true);
                self.visit_expr(if_false);
            },
            Expr::Match(value, alts) => {
                self.visit_expr(value);
                let ghost before = self.result@;
                let mut i: usize = 0;
                while i < alts.len()
                    invariant
                        i <= alts@.len(),
                        decreases_to!(e => alts@),
                        self.symbol == old(self).symbol,
                        self.result@ =~= before + occurrences_alternatives(
                            alts@,
                            i as nat,
                            self.symbol@,
                        ),
                    decreases alts@.len() - i,
                {
                    assert(decreases_to!(alts@ => alts@[i as int]));
                    self.visit_pattern(&alts[i].pattern);
                    self.visit_expr(&alts[i].expr);
                    i += 1;
                }
            },
            Expr::Infix(l, _, r) => {
                self.visit_expr(l);
                self.visit_expr(r);
            },
            Expr::LetBindings(binds, body) => {
                let mut i: usize = 0;
                while i < binds.len()
                    invariant
                        i <= binds@.len(),
                        decreases_to!(e => binds@),
                        self.symbol == old(self).symbol,
                        self.result@ =~= start + occurrences_bindings(
                            binds@,
                            i as nat,
                            self.symbol@,
                        ),
                    decreases binds@.len() - i,
                {
                    assert(decreases_to!(binds@ => binds@[i as int]));
                    self.visit_pattern(&binds[i].name);
                    self.visit_expr(&binds[i].expr);
                    i += 1;
                }
                self.visit_expr(body);
            },
            Expr::TypeBindings(_, body) => {
                self.visit_expr(body);
            },
            Expr::Projection(value, _, _) => {
                self.visit_expr(value);
            },
            Expr::Array(_, exprs) => {
                self.visit_all(exprs);
            },
            Expr::Record { typ: _, types: _, exprs, base } => {
                let mut i: usize = 0;
                while i < exprs.len()
                    invariant
                        i <= exprs@.len(),
                        decreases_to!(e => exprs@),
                        self.symbol == old(self).symbol,
                        self.result@ =~= start + occurrences_fields(
                            exprs@,
                            i as nat,
                            self.symbol@,
                        ),
                    decreases exprs@.len() - i,
                {
                    assert(decreases_to!(exprs@ => exprs@[i as int]));
                    if let Some(value) = &exprs[i].value {
                        self.visit_expr(value);
                    }
                    i += 1;
                }
                if let Some(base) = base {
                    self.visit_expr(base);
                }
            },
            Expr::Lambda(lambda) => {
                self.visit_expr(&lambda.body);
            },
            Expr::Tuple { typ: _, elems } => {
                self.visit_all(elems);
            },
            Expr::Block(exprs) => {
                self.visit_all(exprs);
            },
            Expr::Do(do_expr) => {
                self.visit_expr(&do_expr.bound);
                self.visit_expr(&do_expr.body);
            },
            Expr::Literal(_) => {},
            Expr::Error => {},
        }
        assert(self.result@ =~= start + occurrences(*e, name));
    }

    fn visit_pattern(&mut self, p: &SpannedPattern)
        ensures
            final(self).symbol == old(self).symbol,
            final(self).result@ == old(self).result@ + pattern_occurrences(
                *p,
                old(self).symbol@,
            ),
        decreases p, 2nat,
    {
        let ghost start = self.result@;
        let ghost name = self.symbol@;
        match &p.value {
            Pattern::As(id, inner) => {
                if *id == *self.symbol {
                    self.result.push(p.span);
                    self.walk_pattern(inner);
                } else {
                    self.visit_pattern(inner);
                }
            },
            Pattern::Ident(id) => {
                if id.name == *self.symbol {
                    self.result.push(p.span);
                }
            },
            _ => {
                self.walk_pattern(p);
            },
        }
        assert(self.result@ =~= start + pattern_occurrences(*p, name));
    }

    fn walk_pattern(&mut self, p: &SpannedPattern)
        ensures
            final(self).symbol == old(self).symbol,
            final(self).result@ == old(self).result@ + inner_occurrences(*p, old(self).symbol@),
        decreases p, 1nat,
    {
        let ghost start = self.result@;
        let ghost name = self.symbol@;
        match &p.value {
            Pattern::As(_, inner) => {
                self.visit_pattern(inner);
            },
            Pattern::Constructor(_, args) => {
                self.visit_patterns(args);
            },
            Pattern::Record { typ: _, types: _, fields } => {
                let mut i: usize = 0;
                while i < fields.len()
                    invariant
                        i <= fields@.len(),
                        decreases_to!(p => fields@),
                        self.symbol == old(self).symbol,
                        self.result@ =~= start + pattern_field_occurrences(
                            fields@,
                            i as nat,
                            self.symbol@,
                        ),
                    decreases fields@.len() - i,
                {
                    assert(decreases_to!(fields@ => fields@[i as int]));
                    if let Some(pattern) = &fields[i].value {
                        self.visit_pattern(pattern);
                    }
                    i += 1;
                }
            },
            Pattern::Tuple { typ: _, elems } => {
                self.visit_patterns(elems);
            },
            _ => {},
        }
        assert(self.result@ =~= start + inner_occurrences(*p, name));
    }

    fn visit_patterns(&mut self, patterns: &Vec<SpannedPattern>)
        ensures
            final(self).symbol == old(self).symbol,
            final(self).result@ == old(self).result@ + patterns_occurrences(
                patterns@,
                patterns@.len(),
                old(self).symbol@,
            ),
        decreases patterns@, 0nat,
    {
        let ghost start = self.result@;
        let mut i: usize = 0;
        while i < patterns.len()
            invariant
                i <= patterns@.len(),
                self.symbol == old(self).symbol,
                self.result@ =~= start + patterns_occurrences(patterns@, i as nat, self.symbol@),
            decreases patterns@.len() - i,
        {
            assert(decreases_to!(patterns@ => patterns@[i as int]));
            self.visit_pattern(&patterns[i]);
            i += 1;
        }
    }
}

/// The name that stands at `pos`, and where it is used and bound in all of `expr`.
pub fn find_all_symbols(expr: &SpannedExpr, pos: BytePos) -> (res: Result<(String, Vec<Span>), ()>)
    requires
        searchable(*expr, pos),
    ensures
        match res {
            Ok((text, spans)) => spot_at(*expr, pos) matches Some(spot) && spot_name(spot)
                matches Some(name) && text@ == last_part(name) && spans@ == occurrences(*expr, name),
            Err(()) => spot_at(*expr, pos) matches Some(spot) ==> spot_name(spot) is None,
        },
{
    match ident_at(expr, pos) {
        Ok(symbol) => {
            let mut visitor = ExtractIdents { result: Vec::new(), symbol: &symbol };
            visitor.visit_expr(expr);
            assert(visitor.result@ =~= occurrences(*expr, symbol@));
            let result = visitor.result;
            Ok((symbol.declared_name().to_owned(), result))
        },
        Err(()) => Err(()),
    }
}

/// Something that is declared in an expression.
pub enum SymbolSpot {
    Value(Seq<char>, Ty, SpannedExpr),
    Type(Seq<char>, AliasDataTy),
}

/// Something that is declared in an expression.
pub enum CompletionSymbol<'a> {
    Value { name: &'a Symbol, typ: &'a ArcType, expr: &'a SpannedExpr },
    Type { name: &'a Symbol, alias: &'a AliasData },
}

impl<'a> View for CompletionSymbol<'a> {
    type V = SymbolSpot;

    open spec fn view(&self) -> SymbolSpot {
        match self {
            CompletionSymbol::Value { name, typ, expr } => SymbolSpot::Value(name@, typ@, **expr),
            CompletionSymbol::Type { name, alias } => SymbolSpot::Type(name@, alias@),
        }
    }
}

pub type Declared = Seq<(Span, SymbolSpot)>;

/// The types that the first `n` of `binds` declare.
pub open spec fn declared_types(binds: Seq<TypeBinding>, n: nat) -> Declared
    decreases n,
{
    if n == 0 || n > binds.len() {
        Seq::empty()
    } else {
        declared_types(binds, (n - 1) as nat).push(
            (
                binds[n - 1].name.span,
                SymbolSpot::Type(binds[n - 1].name.value@, binds[n - 1].alias.value@),
            ),
        )
    }
}

/// The values that the first `n` of `binds` bind to plain names.
pub open spec fn declared_values(binds: Seq<ValueBinding>, n: nat) -> Declared
    decreases n,
{
    if n == 0 || n > binds.len() {
        Seq::empty()
    } else {
        let before = declared_values(binds, (n - 1) as nat);
        match binds[n - 1].name.value {
            Pattern::Ident(id) => before.push(
                (
                    binds[n - 1].name.span,
                    SymbolSpot::Value(id.name@, id.typ@, binds[n - 1].expr),
                ),
            ),
            _ => before,
        }
    }
}

/// All that is declared in `expr`, what is outside before what is inside.
pub open spec fn declared(expr: SpannedExpr) -> Declared
    decreases expr, 0nat,
{
    match expr.value {
        Expr::App(func, args) => declared(*func) + declared_all(args@, args@.len()),
        Expr::IfElse(pred, if_true, if_false) => declared(*pred) + declared(*if_true) + declared(
            *if_false,
        ),
        Expr::Match(value, alts) => declared(*value) + declared_alternatives(alts@, alts@.len()),
        Expr::Infix(l, _, r) => declared(*l) + declared(*r),
        Expr::LetBindings(binds, body) => declared_values(binds@, binds@.len())
            + declared_bindings(binds@, binds@.len()) + declared(*body),
        Expr::TypeBindings(binds, body) => declared_types(binds@, binds@.len()) + declared(*body),
        Expr::Projection(value, _, _) => declared(*value),
        Expr::Array(_, exprs) => declared_all(exprs@, exprs@.len()),
        Expr::Record { typ: _, types: _, exprs, base } => declared_fields(exprs@, exprs@.len())
            + match base {
            Some(base) => declared(*base),
            None => Seq::empty(),
        },
        Expr::Lambda(lambda) => declared(*lambda.body),
        Expr::Tuple { typ: _, elems } => declared_all(elems@, elems@.len()),
        Expr::Block(exprs) => declared_all(exprs@, exprs@.len()),
        Expr::Do(do_expr) => declared(*do_expr.bound) + declared(*do_expr.body),
        _ => Seq::empty(),
    }
}

pub open spec fn declared_all(exprs: Seq<SpannedExpr>, n: nat) -> Declared
    decreases exprs, n,
{
    if n == 0 || n > exprs.len() {
        Seq::empty()
    } else {
        declared_all(exprs, (n - 1) as nat) + declared(exprs[n - 1])
    }
}

pub open spec fn declared_alternatives(alts: Seq<Alternative>, n: nat) -> Declared
    decreases alts, n,
{
    if n == 0 || n > alts.len() {
        Seq::empty()
    } else {
        declared_alternatives(alts, (n - 1) as nat) + declared(alts[n - 1].expr)
    }
}

pub open spec fn declared_bindings(binds: Seq<ValueBinding>, n: nat) -> Declared
    decreases binds, n,
{
    if n == 0 || n > binds.len() {
        Seq::empty()
    } else {
        declared_bindings(binds, (n - 1) as nat) + declared(binds[n - 1].expr)
    }
}

pub open spec fn declared_fields(fields: Seq<ExprField>, n: nat) -> Declared
    decreases fields, n,
{
    if n == 0 || n > fields.len() {
        Seq::empty()
    } else {
        declared_fields(fields, (n - 1) as nat) + match fields[n - 1].value {
            Some(expr) => declared(expr),
            None => Seq::empty(),
        }
    }
}

pub open spec fn symbols_spots<'a>(symbols: Seq<(Span, CompletionSymbol<'a>)>) -> Declared {
    symbols.map_values(|s: (Span, CompletionSymbol<'a>)| (s.0, s.1@))
}

struct AllIdents<'a> {
    result: Vec<(Span, CompletionSymbol<'a>)>,
}

impl<'a> AllIdents<'a> {
    fn push(&mut self, span: Span, symbol: CompletionSymbol<'a>)
        ensures
            symbols_spots(final(self).result@) == symbols_spots(old(self).result@).push(
                (span, symbol@),
            ),
    {
        self.result.push((span, symbol));
        assert(symbols_spots(self.result@) =~= symbols_spots(old(self).result@).push(
            (span, symbol@),
        ));
    }

    fn visit_all(&mut self, exprs: &'a Vec<SpannedExpr>)
        ensures
            symbols_spots(final(self).result@) == symbols_spots(old(self).result@) + declared_all(
                exprs@,
                exprs@.len(),
            ),
        decreases exprs@, 0nat,
    {
        let ghost start = symbols_spots(self.result@);
        let mut i: usize = 0;
        while i < exprs.len()
            invariant
                i <= exprs@.len(),
                symbols_spots(self.result@) =~= start + declared_all(exprs@, i as nat),
            decreases exprs@.len() - i,
        {
            assert(decreases_to!(exprs@ => exprs@[i as int]));
            self.visit_expr(&exprs[i]);
            i += 1;
        }
    }

    #[verifier::rlimit(30)]
    fn visit_expr(&mut self, e: &'a SpannedExpr)
        ensures
            symbols_spots(final(self).result@) == symbols_spots(old(self).result@) + declared(*e),
        decreases e, 0nat,
    {
        let ghost start = symbols_spots(self.result@);
        match &e.value {
            Expr::App(func, args) => {
                self.visit_expr(func);
                self.visit_all(args);
            },
            Expr::IfElse(pred, if_true, if_false) => {
                self.visit_expr(pred);
                self.visit_expr(if_true);
                self.visit_expr(if_false);
            },
            Expr::Match(value, alts) => {
                self.visit_expr(value);
                let ghost before = symbols_spots(self.result@);
                let mut i: usize = 0;
                while i < alts.len()
                    invariant
                        i <= alts@.len(),
                        decreases_to!(e => alts@),
                        symbols_spots(self.result@) =~= before + declared_alternatives(
                            alts@,
                            i as nat,
                        ),
                    decreases alts@.len() - i,
                {
                    assert(decreases_to!(alts@ => alts@[i as int]));
                    self.visit_expr(&alts[i].expr);
                    i += 1;
                }
            },
            Expr::Infix(l, _, r) => {
                self.visit_expr(l);
                self.visit_expr(r);
            },
            Expr::LetBindings(binds, body) => {
                let mut i: usize = 0;
                while i < binds.len()
                    invariant
                        i <= binds@.len(),
                        symbols_spots(self.result@) =~= start + declared_values(binds@, i as nat),
                    decreases binds@.len() - i,
                {
                    if let Pattern::Ident(id) = &binds[i].name.value {
                        self.push(
                            binds[i].name.span,
                            CompletionSymbol::Value {
                                name: &id.name,
                                typ: &id.typ,
                                expr: &binds[i].expr,
                            },
                        );
                    }
                    i += 1;
                }
                let ghost before = symbols_spots(self.result@);
                let mut j: usize = 0;
                while j < binds.len()
                    invariant
                        j <= binds@.len(),
                        decreases_to!(e => binds@),
                        symbols_spots(self.result@) =~= before + declared_bindings(
                            binds@,
                            j as nat,
                        ),
                    decreases binds@.len() - j,
                {
                    assert(decreases_to!(binds@ => binds@[j as int]));
                    self.visit_expr(&binds[j].expr);
                    j += 1;
                }
                self.visit_expr(body);
            },
            Expr::TypeBindings(binds, body) => {
                let mut i: usize = 0;
                while i < binds.len()
                    invariant
                        i <= binds@.len(),
                        symbols_spots(self.result@) =~= start + declared_types(binds@, i as nat),
                    decreases binds@.len() - i,
                {
                    self.push(
                        binds[i].name.span,
                        CompletionSymbol::Type {
                            name: &binds[i].name.value,
                            alias: &binds[i].alias.value,
                        },
                    );
                    i += 1;
                }
                self.visit_expr(body);
            },
            Expr::Projection(value, _, _) => {
                self.visit_expr(value);
            },
            Expr::Array(_, exprs) => {
                self.visit_all(exprs);
            },
            Expr::Record { typ: _, types: _, exprs, base } => {
                let mut i: usize = 0;
                while i < exprs.len()
                    invariant
                        i <= exprs@.len(),
                        decreases_to!(e => exprs@),
                        symbols_spots(self.result@) =~= start + declared_fields(exprs@, i as nat),
                    decreases exprs@.len() - i,
                {
                    assert(decreases_to!(exprs@ => exprs@[i as int]));
                    if let Some(value) = &exprs[i].value {
                        self.visit_expr(value);
                    }
                    i += 1;
                }
                if let Some(base) = base {
                    self.visit_expr(base);
                }
            },
            Expr::Lambda(lambda) => {
                self.visit_expr(&lambda.body);
            },
            Expr::Tuple { typ: _, elems } => {
                self.visit_all(elems);
            },
            Expr::Block(exprs) => {
                self.visit_all(exprs);
            },
            Expr::Do(do_expr) => {
                self.visit_expr(&do_expr.bound);
                self.visit_expr(&do_expr.body);
            },
            _ => {},
        }
        assert(symbols_spots(self.result@) =~= start + declared(*e));
    }
}

/// All that is declared in `expr`.
pub fn all_symbols<'a>(expr: &'a SpannedExpr) -> (res: Vec<(Span, CompletionSymbol<'a>)>)
    ensures
        symbols_spots(res@) == declared(*expr),
{
    let mut visitor = AllIdents { result: Vec::new() };
    visitor.visit_expr(expr);
    assert(symbols_spots(visitor.result@) =~= declared(*expr));
    visitor.result
}

/// The kind of a type, or the type of a value.
pub enum KindOrTy {
    Kind(Kind),
    Type(Ty),
}

/// What a suggestion says.
pub struct Hint {
    pub name: Seq<char>,
    pub typ: KindOrTy,
}

/// The kind of a type, or the type of a value.
pub enum SuggestionType {
    Kind(ArcKind),
    Type(ArcType),
}

impl View for SuggestionType {
    type V = KindOrTy;

    open spec fn view(&self) -> KindOrTy {
        match self {
            SuggestionType::Kind(kind) => KindOrTy::Kind(**kind),
            SuggestionType::Type(typ) => KindOrTy::Type(typ@),
        }
    }
}

/// A name that could stand at a position.
pub struct Suggestion {
    pub name: String,
    pub typ: SuggestionType,
}

impl View for Suggestion {
    type V = Hint;

    open spec fn view(&self) -> Hint {
        Hint { name: self.name@, typ: self.typ@ }
    }
}

pub open spec fn hints(suggestions: Seq<Suggestion>) -> Seq<Hint> {
    suggestions.map_values(|s: Suggestion| s@)
}

/// Values as suggestions, by the names that they were declared with.
pub open spec fn value_hints(bindings: Seq<(Seq<char>, Ty)>) -> Seq<Hint> {
    bindings.map_values(
        |b: (Seq<char>, Ty)| Hint { name: last_part(b.0), typ: KindOrTy::Type(b.1) },
    )
}

/// Types as suggestions, by the names that they were declared with.
pub open spec fn type_hints(bindings: Seq<(Seq<char>, Kind)>) -> Seq<Hint> {
    bindings.map_values(
        |b: (Seq<char>, Kind)| Hint { name: last_part(b.0), typ: KindOrTy::Kind(b.1) },
    )
}

pub(crate) fn push_hint(result: &mut Vec<Suggestion>, name: &str, typ: SuggestionType)
    ensures
        hints(final(result)@) == hints(old(result)@).push(Hint { name: name@, typ: typ@ }),
{
    result.push(Suggestion { name: name.to_owned(), typ });
    assert(hints(result@) =~= hints(old(result)@).push(Hint { name: name@, typ: typ@ }));
}

/// Suggests the values of which the names begin with `prefix`.
pub(crate) fn suggest_values(result: &mut Vec<Suggestion>, bindings: &Vec<(Symbol, ArcType)>, prefix: &str)
    ensures
        hints(final(result)@) == hints(old(result)@) + value_hints(
            visible(typed_names(bindings@), prefix@, bindings@.len()),
        ),
{
    let ghost all = typed_names(bindings@);
    let ghost start = hints(result@);
    let mut i: usize = 0;
    assert(value_hints(visible(all, prefix@, 0)) =~= Seq::<Hint>::empty());
    while i < bindings.len()
        invariant
            i <= bindings@.len(),
            all == typed_names(bindings@),
            hints(result@) =~= start + value_hints(visible(all, prefix@, i as nat)),
        decreases bindings@.len() - i,
    {
        assert(all[i as int] == (bindings@[i as int].0@, bindings@[i as int].1@));
        let ghost before = visible(all, prefix@, i as nat);
        if is_shown(bindings, prefix, i) {
            push_hint(
                result,
                bindings[i].0.declared_name(),
                SuggestionType::Type(bindings[i].1.clone()),
            );
            assert(value_hints(before.push(all[i as int])) =~= value_hints(before).push(
                Hint { name: last_part(all[i as int].0), typ: KindOrTy::Type(all[i as int].1) },
            ));
        }
        i += 1;
    }
}

/// Suggests the types of which the names begin with `prefix`.
pub(crate) fn suggest_types(result: &mut Vec<Suggestion>, bindings: &Vec<(Symbol, ArcKind)>, prefix: &str)
    ensures
        hints(final(result)@) == hints(old(result)@) + type_hints(
            visible(kinded_names(bindings@), prefix@, bindings@.len()),
        ),
{
    let ghost all = kinded_names(bindings@);
    let ghost start = hints(result@);
    let mut i: usize = 0;
    assert(type_hints(visible(all, prefix@, 0)) =~= Seq::<Hint>::empty());
    while i < bindings.len()
        invariant
            i <= bindings@.len(),
            all == kinded_names(bindings@),
            hints(result@) =~= start + type_hints(visible(all, prefix@, i as nat)),
        decreases bindings@.len() - i,
    {
        assert(all[i as int] == (bindings@[i as int].0@, *bindings@[i as int].1));
        let ghost before = visible(all, prefix@, i as nat);
        if is_shown(bindings, prefix, i) {
            push_hint(
                result,
                bindings[i].0.declared_name(),
                SuggestionType::Kind(bindings[i].1.clone()),
            );
            assert(type_hints(before.push(all[i as int])) =~= type_hints(before).push(
                Hint { name: last_part(all[i as int].0), typ: KindOrTy::Kind(all[i as int].1) },
            ));
        }
        i += 1;
    }
}

/// The fields of a record pattern have the name `name`.
pub open spec fn taken(types: Seq<PatternTypeField>, fields: Seq<PatternField>, name: Seq<char>) -> bool {
    ||| exists|i: int| 0 <= i < types.len() && (#[trigger] types[i]).name.value@ == name
    ||| exists|j: int| 0 <= j < fields.len() && (#[trigger] fields[j]).name.value@ == name
}

/// Whether the field `name` is suggested for a record pattern: it is not there yet, or is what is
/// being typed.
pub open spec fn wanted(
    types: Seq<PatternTypeField>,
    fields: Seq<PatternField>,
    prefix: Seq<char>,
    name: Seq<char>,
) -> bool {
    (!taken(types, fields, name) && begins(name, prefix)) || name == prefix
}

/// The first `n` of the fields `all` of a type, as suggestions for a record pattern.
pub open spec fn field_hints(
    types: Seq<PatternTypeField>,
    fields: Seq<PatternField>,
    prefix: Seq<char>,
    all: Seq<FieldTy>,
    n: nat,
) -> Seq<Hint>
    decreases n,
{
    if n == 0 || n > all.len() {
        Seq::empty()
    } else {
        let before = field_hints(types, fields, prefix, all, (n - 1) as nat);
        let name = last_part(all[n - 1].name);
        if wanted(types, fields, prefix, name) {
            before.push(Hint { name, typ: KindOrTy::Type(all[n - 1].typ) })
        } else {
            before
        }
    }
}

/// The fields and the associated types of `typ`, as suggestions for a record pattern.
pub open spec fn pattern_hints(
    types: Seq<PatternTypeField>,
    fields: Seq<PatternField>,
    prefix: Seq<char>,
    typ: Ty,
) -> Seq<Hint> {
    field_hints(types, fields, prefix, row_fields(typ), row_fields(typ).len()) + field_hints(
        types,
        fields,
        prefix,
        type_fields(typ),
        type_fields(typ).len(),
    )
}

fn is_wanted(types: &Vec<PatternTypeField>, fields: &Vec<PatternField>, prefix: &str, name: &str)
    -> (res: bool)
    ensures
        res == wanted(types@, fields@, prefix@, name@),
{
    if same(name, prefix) {
        return true;
    }
    if !starts_with(name, prefix) {
        return false;
    }
    let mut i: usize = 0;
    while i < types.len()
        invariant
            i <= types@.len(),
            name@ != prefix@,
            forall|k: int| 0 <= k < i ==> (#[trigger] types@[k]).name.value@ != name@,
        decreases types@.len() - i,
    {
        if same(types[i].name.value.as_str(), name) {
            assert(taken(types@, fields@, name@));
            return false;
        }
        i += 1;
    }
    let mut j: usize = 0;
    while j < fields.len()
        invariant
            j <= fields@.len(),
            name@ != prefix@,
            forall|k: int| 0 <= k < fields@.len() && k < j ==> (#[trigger] fields@[k]).name.value@
                != name@,
        decreases fields@.len() - j,
    {
        if same(fields[j].name.value.as_str(), name) {
            assert(taken(types@, fields@, name@));
            return false;
        }
        j += 1;
    }
    assert(!taken(types@, fields@, name@));
    true
}

/// Suggests the fields and the associated types of `typ` for a record pattern.
#[verifier::rlimit(30)]
pub(crate) fn suggest_fields_of_type(
    result: &mut Vec<Suggestion>,
    types: &Vec<PatternTypeField>,
    fields: &Vec<PatternField>,
    prefix: &str,
    typ: &ArcType,
)
    ensures
        hints(final(result)@) == hints(old(result)@) + pattern_hints(
            types@,
            fields@,
            prefix@,
            typ@,
        ),
{
    let ghost start = hints(result@);
    let ghost all = row_fields(typ@);
    let mut iter = row_iter(typ);
    let ghost mut i: int = 0;
    let mut more = true;
    assert(all.skip(0) =~= all);
    while more
        invariant
            all == row_fields(typ@),
            iter.wf(),
            0 <= i <= all.len(),
            iter@ == all.skip(i),
            !more ==> i == all.len(),
            hints(result@) =~= start + field_hints(types@, fields@, prefix@, all, i as nat),
        decreases all.len() - i, (if more { 1nat } else { 0nat }),
    {
        match iter.next() {
            Some(field) => {
                proof {
                    assert(all.skip(i)[0] == all[i]);
                    assert(all.skip(i).drop_first() =~= all.skip(i + 1));
                }
                if is_wanted(types, fields, prefix, field.name.declared_name()) {
                    push_hint(
                        result,
                        field.name.declared_name(),
                        SuggestionType::Type(field.typ.clone()),
                    );
                }
                proof {
                    i = i + 1;
                }
            },
            None => {
                more = false;
            },
        }
    }
    let ghost middle = hints(result@);
    let ghost all_types = type_fields(typ@);
    let mut type_iter = type_field_iter(typ);
    let ghost mut j: int = 0;
    let mut more = true;
    assert(all_types.skip(0) =~= all_types);
    while more
        invariant
            all_types == type_fields(typ@),
            type_iter.wf(),
            0 <= j <= all_types.len(),
            type_iter@ == all_types.skip(j),
            !more ==> j == all_types.len(),
            hints(result@) =~= middle + field_hints(
                types@,
                fields@,
                prefix@,
                all_types,
                j as nat,
            ),
        decreases all_types.len() - j, (if more { 1nat } else { 0nat }),
    {
        match type_iter.next() {
            Some(field) => {
                proof {
                    assert(all_types.skip(j)[0] == all_types[j]);
                    assert(all_types.skip(j).drop_first() =~= all_types.skip(j + 1));
                }
                if is_wanted(types, fields, prefix, field.name.declared_name()) {
                    push_hint(
                        result,
                        field.name.declared_name(),
                        SuggestionType::Type(field.typ.as_type().clone()),
                    );
                }
                proof {
                    j = j + 1;
                }
            },
            None => {
                more = false;
            },
        }
    }
    assert(hints(result@) =~= start + pattern_hints(types@, fields@, prefix@, typ@));
}

/// The first `n` of the fields `all` whose names begin with `prefix`, as suggestions.
pub open spec fn member_hints(all: Seq<FieldTy>, prefix: Seq<char>, n: nat) -> Seq<Hint>
    decreases n,
{
    if n == 0 || n > all.len() {
        Seq::empty()
    } else {
        let before = member_hints(all, prefix, (n - 1) as nat);
        if begins(all[n - 1].name, prefix) {
            before.push(
                Hint { name: last_part(all[n - 1].name), typ: KindOrTy::Type(all[n - 1].typ) },
            )
        } else {
            before
        }
    }
}

/// Suggests the fields of `typ` whose names begin with `prefix`.
pub(crate) fn suggest_members(result: &mut Vec<Suggestion>, typ: &ArcType, prefix: &str)
    ensures
        hints(final(result)@) == hints(old(result)@) + member_hints(
            row_fields(typ@),
            prefix@,
            row_fields(typ@).len(),
        ),
{
    let ghost start = hints(result@);
    let ghost all = row_fields(typ@);
    let mut iter = row_iter(typ);
    let ghost mut i: int = 0;
    assert(all.skip(0) =~= all);
    loop
        invariant
            all == row_fields(typ@),
            iter.wf(),
            0 <= i <= all.len(),
            iter@ == all.skip(i),
            start == hints(old(result)@),
            hints(result@) =~= start + member_hints(all, prefix@, i as nat),
        decreases all.len() - i,
    {
        match iter.next() {
            Some(field) => {
                proof {
                    assert(all.skip(i)[0] == all[i]);
                    assert(all.skip(i).drop_first() =~= all.skip(i + 1));
                }
                if starts_with(field.name.as_str(), prefix) {
                    push_hint(
                        result,
                        field.name.declared_name(),
                        SuggestionType::Type(field.typ.clone()),
                    );
                }
                proof {
                    i = i + 1;
                }
            },
            None => {
                return ;
            },
        }
    }
}

} // verus!
