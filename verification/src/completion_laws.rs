//! What the search for a position promises: the innermost thing at the position is found.

use vstd::prelude::*;
use crate::ast::{
    Alternative, AstType, Expr, ExprField, Pattern, SpannedExpr, SpannedIdent, SpannedPattern,
    TypeBinding, ValueBinding,
};
use crate::completion::{
    alternative_spans, binding_part_spans, binding_spans, completed, constructor_span, expr_spans,
    ident_spans, pattern_spans, record_spans, searched, searched_alternative, searched_binding,
    searched_one, searched_pattern, searched_record, searched_type, searched_type_binding, searched_types, searched_value, see_aliases,
    see_bindings, see_idents, see_params, select, select_from, type_binding_spans, valued, Search,
    Seen, Spot,
};
use crate::kind::Kind;
use crate::pos::{BytePos, Span, NO_EXPANSION};
use crate::types::model::{GenericTy, Ty};
use crate::types::query::kind_of;

verus! {

/// Something that stands in source text.
pub enum Part {
    Expr(SpannedExpr),
    Pattern(SpannedPattern),
    Binding(ValueBinding),
    Alternative(Alternative),
    Type(AstType),
    TypeBinding(TypeBinding),
    /// A name that is not an expression of its own.
    Name(Span, Spot),
}

pub open spec fn span_of(part: Part) -> Span {
    match part {
        Part::Expr(expr) => expr.span,
        Part::Pattern(pattern) => pattern.span,
        Part::Binding(bind) => Span::between(bind.name.span.start, bind.expr.span.end),
        Part::Alternative(alt) => Span::between(alt.pattern.span.start, alt.expr.span.end),
        Part::Type(typ) => typ.span,
        Part::TypeBinding(bind) => Span::between(bind.name.span.start, bind.alias.span.end),
        Part::Name(span, _) => span,
    }
}

pub open spec fn ident_part(ident: SpannedIdent) -> Part {
    Part::Name(ident.span, Spot::Ident(ident.span, ident.value.name@, ident.value.typ@))
}

pub open spec fn exprs_parts(exprs: Seq<SpannedExpr>) -> Seq<Part> {
    exprs.map_values(|expr: SpannedExpr| Part::Expr(expr))
}

pub open spec fn patterns_parts(patterns: Seq<SpannedPattern>) -> Seq<Part> {
    patterns.map_values(|pattern: SpannedPattern| Part::Pattern(pattern))
}

pub open spec fn idents_parts(idents: Seq<SpannedIdent>) -> Seq<Part> {
    idents.map_values(|ident: SpannedIdent| ident_part(ident))
}

/// The values of the fields from `from` on.
pub open spec fn field_parts(fields: Seq<ExprField>, from: int) -> Seq<Part>
    decreases fields.len() - from,
{
    if from < 0 || from >= fields.len() {
        Seq::empty()
    } else {
        match fields[from].value {
            Some(value) => seq![Part::Expr(value)] + field_parts(fields, from + 1),
            None => field_parts(fields, from + 1),
        }
    }
}

/// The type is a name.
pub open spec fn names_type(typ: AstType) -> Option<Spot> {
    match typ.typ@ {
        Ty::Ident(id) => Some(Spot::Type(typ.span, id, Kind::Hole)),
        Ty::Generic(param) => Some(Spot::Type(typ.span, param.id, *param.kind)),
        Ty::Alias(alias) => Some(
            Spot::Type(typ.span, alias.data().name, kind_of(typ.typ@, 0)),
        ),
        _ => None,
    }
}

/// What `part` is made of, in the order in which it stands in the text. Record patterns count as
/// a whole.
pub open spec fn parts(part: Part) -> Seq<Part> {
    match part {
        Part::Expr(expr) => match expr.value {
            Expr::App(func, args) => seq![Part::Expr(*func)] + exprs_parts(args@),
            Expr::Lambda(lambda) => idents_parts(lambda.args@) + seq![Part::Expr(*lambda.body)],
            Expr::IfElse(pred, if_true, if_false) => seq![
                Part::Expr(*pred),
                Part::Expr(*if_true),
                Part::Expr(*if_false),
            ],
            Expr::Match(value, alts) => seq![Part::Expr(*value)] + alts@.map_values(
                |alt: Alternative| Part::Alternative(alt),
            ),
            Expr::Infix(lhs, op, rhs) => seq![Part::Expr(*lhs), ident_part(op), Part::Expr(*rhs)],
            Expr::Projection(value, id, typ) => if value.span.end.0 < expr.span.end.0 {
                seq![
                    Part::Expr(*value),
                    Part::Name(
                        Span::between(BytePos((value.span.end.0 + 1) as u32), expr.span.end),
                        Spot::Ident(expr.span, id@, typ@),
                    ),
                ]
            } else {
                seq![Part::Expr(*value)]
            },
            Expr::Array(_, exprs) => exprs_parts(exprs@),
            Expr::Record { typ: _, types: _, exprs, base } => field_parts(exprs@, 0) + match base {
                Some(base) => seq![Part::Expr(*base)],
                None => Seq::empty(),
            },
            Expr::Tuple { typ: _, elems } => exprs_parts(elems@),
            Expr::LetBindings(binds, body) => binds@.map_values(
                |bind: ValueBinding| Part::Binding(bind),
            ) + seq![Part::Expr(*body)],
            Expr::TypeBindings(binds, body) => binds@.map_values(
                |bind: TypeBinding| Part::TypeBinding(bind),
            ) + seq![Part::Expr(*body)],
            Expr::Block(exprs) => exprs_parts(exprs@),
            Expr::Do(do_expr) => seq![
                ident_part(do_expr.id),
                Part::Expr(*do_expr.bound),
                Part::Expr(*do_expr.body),
            ],
            _ => Seq::empty(),
        },
        Part::Pattern(pattern) => match pattern.value {
            Pattern::As(_, inner) => seq![Part::Pattern(*inner)],
            Pattern::Constructor(id, args) => match constructor_span(
                pattern.span.start,
                id.name@,
            ) {
                Some(span) => seq![Part::Name(span, Spot::Pattern(pattern))] + patterns_parts(
                    args@,
                ),
                None => Seq::empty(),
            },
            Pattern::Tuple { typ: _, elems } => patterns_parts(elems@),
            _ => Seq::empty(),
        },
        Part::Binding(bind) => seq![Part::Pattern(bind.name)] + idents_parts(bind.args@) + match bind.typ {
            Some(typ) => seq![Part::Type(typ)],
            None => Seq::empty(),
        } + seq![Part::Expr(bind.expr)],
        Part::Alternative(alt) => seq![Part::Pattern(alt.pattern), Part::Expr(alt.expr)],
        Part::Type(typ) => if names_type(typ) is Some {
            Seq::empty()
        } else {
            typ.parts@.map_values(|part: AstType| Part::Type(part))
        },
        Part::TypeBinding(bind) => {
            let data = bind.alias.value@;
            seq![
                Part::Name(
                    bind.name.span,
                    Spot::Type(bind.name.span, data.name, kind_of(data.typ, 0)),
                ),
                Part::Type(bind.aliased_type),
            ]
        },
        Part::Name(_, _) => Seq::empty(),
    }
}

/// What is found where `part` stands, if it is not made of others.
pub open spec fn spot_of(part: Part) -> Option<Spot> {
    match part {
        Part::Expr(expr) => match expr.value {
            Expr::Ident(_) => Some(Spot::Expr(expr)),
            Expr::Literal(_) => Some(Spot::Expr(expr)),
            Expr::Tuple { typ: _, elems } => if elems@.len() == 0 {
                Some(Spot::Expr(expr))
            } else {
                None
            },
            Expr::Block(exprs) => if exprs@.len() == 0 {
                Some(Spot::Expr(expr))
            } else {
                None
            },
            _ => None,
        },
        Part::Pattern(pattern) => match pattern.value {
            Pattern::Ident(_) => Some(Spot::Pattern(pattern)),
            Pattern::Error => Some(Spot::Pattern(pattern)),
            _ => None,
        },
        Part::Type(typ) => names_type(typ),
        Part::Name(_, spot) => Some(spot),
        _ => None,
    }
}

/// What `path` leads to: each step goes to one of the parts.
pub open spec fn part_at(part: Part, path: Seq<int>) -> Option<Part>
    decreases path.len(),
{
    if path.len() == 0 {
        Some(part)
    } else if 0 <= path[0] < parts(part).len() {
        part_at(parts(part)[path[0]], path.drop_first())
    } else {
        None
    }
}

pub open spec fn holds(span: Span, pos: BytePos) -> bool {
    span.start.0 <= pos.0 <= span.end.0
}

/// `spans` follow each other, and not two of them hold `pos`.
pub open spec fn in_order(spans: Seq<Span>, pos: BytePos) -> bool {
    &&& forall|i: int| 0 <= i < spans.len() ==> (#[trigger] spans[i]).start.0 <= spans[i].end.0
    &&& forall|i: int, j: int|
        0 <= i < j < spans.len() ==> (#[trigger] spans[i]).end.0 <= (#[trigger] spans[j]).start.0
            && !(holds(spans[i], pos) && holds(spans[j], pos))
}

pub open spec fn part_spans(part: Part) -> Seq<Span> {
    parts(part).map_values(|inner: Part| span_of(inner))
}

/// The parts of `part` follow each other in its span, and no macro made it.
pub open spec fn is_orderly(part: Part, pos: BytePos) -> bool {
    &&& span_of(part).start.0 <= span_of(part).end.0
    &&& in_order(part_spans(part), pos)
    &&& forall|i: int|
        0 <= i < part_spans(part).len() ==> span_of(part).start.0 <= (
        #[trigger] part_spans(part)[i]).start.0 && part_spans(part)[i].end.0 <= span_of(part).end.0
    &&& match part {
        Part::Expr(expr) => expr.span.expansion_id == NO_EXPANSION && (
        expr.value matches Expr::TypeBindings(binds, _) ==> forall|i: int|
            0 <= i < binds@.len() ==> (#[trigger] binds@[i]).finalized_alias is Some),
        _ => true,
    }
}

/// All that `part` is made of is in order.
pub open spec fn is_laid_out(part: Part, pos: BytePos) -> bool {
    forall|path: Seq<int>|
        (#[trigger] part_at(part, path)) matches Some(inner) ==> is_orderly(inner, pos)
}

/// The search in `part`.
pub open spec fn searched_part(s: Search, pos: BytePos, part: Part) -> Option<Search> {
    match part {
        Part::Expr(expr) => searched(s, pos, expr),
        Part::Pattern(pattern) => searched_pattern(s, pos, pattern),
        Part::Binding(bind) => searched_binding(s, pos, bind),
        Part::Alternative(alt) => searched_alternative(s, pos, alt),
        Part::Type(typ) => Some(searched_type(s, pos, typ)),
        Part::TypeBinding(bind) => Some(searched_type_binding(s, pos, bind)),
        Part::Name(_, spot) => Some(s.find(Some(spot))),
    }
}

proof fn at_part(part: Part, i: int, path: Seq<int>)
    requires
        0 <= i < parts(part).len(),
    ensures
        part_at(part, seq![i] + path) == part_at(parts(part)[i], path),
{
    assert((seq![i] + path).drop_first() =~= path);
}

proof fn part_is_laid_out(part: Part, i: int, pos: BytePos)
    requires
        is_laid_out(part, pos),
        0 <= i < parts(part).len(),
    ensures
        is_laid_out(parts(part)[i], pos),
        is_orderly(part, pos),
        is_orderly(parts(part)[i], pos),
{
    let inner = parts(part)[i];
    assert forall|path: Seq<int>| (#[trigger] part_at(inner, path)) matches Some(p) implies is_orderly(
        part_at(inner, path)->0,
        pos,
    ) by {
        at_part(part, i, path);
        assert(part_at(part, seq![i] + path) == part_at(inner, path));
    }
    assert(part_at(part, Seq::empty()) == Some(part));
    assert(part_at(inner, Seq::empty()) == Some(inner));
}

/// What holds a position holds it as a whole.
proof fn whole_holds(part: Part, path: Seq<int>, pos: BytePos)
    requires
        is_laid_out(part, pos),
        part_at(part, path) matches Some(inner) && holds(span_of(inner), pos),
    ensures
        holds(span_of(part), pos),
    decreases path.len(),
{
    if path.len() > 0 {
        let i = path[0];
        part_is_laid_out(part, i, pos);
        whole_holds(parts(part)[i], path.drop_first(), pos);
        assert(part_spans(part)[i] == span_of(parts(part)[i]));
    }
}

proof fn selects(spans: Seq<Span>, pos: BytePos, k: int, i: int)
    requires
        0 <= i <= k < spans.len(),
        in_order(spans, pos),
        holds(spans[k], pos),
    ensures
        select_from(spans, pos, i) == (false, Some(k)),
    decreases k - i,
{
    if i < k {
        assert(spans[i].end.0 <= spans[k].start.0);
        assert(!holds(spans[i], pos));
        selects(spans, pos, k, i + 1);
    }
}

proof fn selects_none(spans: Seq<Span>, pos: BytePos, i: int)
    requires
        0 <= i <= spans.len(),
        forall|k: int|
            0 <= k < spans.len() ==> (#[trigger] spans[k]).start.0 <= spans[k].end.0 && !holds(
                spans[k],
                pos,
            ),
    ensures
        select_from(spans, pos, i).0,
    decreases spans.len() - i,
{
    if i < spans.len() {
        assert(!holds(spans[i], pos));
        selects_none(spans, pos, i + 1);
    }
}

proof fn field_parts_are_valued(fields: Seq<ExprField>, from: int)
    requires
        0 <= from,
    ensures
        field_parts(fields, from).len() == valued(fields, from).len(),
        forall|k: int|
            0 <= k < valued(fields, from).len() ==> 0 <= (#[trigger] valued(fields, from)[k])
                < fields.len() && fields[valued(fields, from)[k]].value is Some && field_parts(
                fields,
                from,
            )[k] == Part::Expr(fields[valued(fields, from)[k]].value->0),
    decreases fields.len() - from,
{
    if from < fields.len() {
        field_parts_are_valued(fields, from + 1);
        let rest = valued(fields, from + 1);
        if fields[from].value is Some {
            assert forall|k: int| 0 <= k < valued(fields, from).len() implies 0 <= (
            #[trigger] valued(fields, from)[k]) < fields.len() && fields[valued(
                fields,
                from,
            )[k]].value is Some && field_parts(fields, from)[k] == Part::Expr(
                fields[valued(fields, from)[k]].value->0,
            ) by {
                if k > 0 {
                    assert(valued(fields, from)[k] == rest[k - 1]);
                    assert(field_parts(fields, from)[k] == field_parts(fields, from + 1)[k - 1]);
                }
            }
        }
    }
}

proof fn aliases_are_seen(s: Search, binds: Seq<TypeBinding>, n: nat)
    requires
        n <= binds.len(),
        forall|i: int| 0 <= i < binds.len() ==> (#[trigger] binds[i]).finalized_alias is Some,
    ensures
        see_aliases(s, binds, n) is Some,
    decreases n,
{
    if n > 0 {
        aliases_are_seen(s, binds, (n - 1) as nat);
    }
}

proof fn params_find_nothing(s: Search, params: Seq<GenericTy>, n: nat)
    ensures
        see_params(s, params, n).found == s.found,
    decreases n,
{
    if n > 0 && n <= params.len() {
        params_find_nothing(s, params, (n - 1) as nat);
    }
}

/// Nothing is found in a type that does not hold the position.
proof fn type_is_passed(s: Search, pos: BytePos, typ: AstType)
    requires
        is_laid_out(Part::Type(typ), pos),
        !holds(typ.span, pos),
        names_type(typ) is None,
    ensures
        searched_type(s, pos, typ).found == s.found,
    decreases typ, 1nat,
{
    assert(part_at(Part::Type(typ), Seq::empty()) == Some(Part::Type(typ)));
    types_are_passed(s, pos, typ, typ.parts@.len());
}

proof fn types_are_passed(s: Search, pos: BytePos, typ: AstType, n: nat)
    requires
        is_laid_out(Part::Type(typ), pos),
        !holds(typ.span, pos),
        names_type(typ) is None,
        n <= typ.parts@.len(),
    ensures
        searched_types(s, pos, typ.parts@, n).found == s.found,
    decreases typ, 0nat, n,
{
    if n > 0 {
        types_are_passed(s, pos, typ, (n - 1) as nat);
        let before = searched_types(s, pos, typ.parts@, (n - 1) as nat);
        part_is_laid_out(Part::Type(typ), n - 1, pos);
        let part = typ.parts@[n - 1];
        assert(parts(Part::Type(typ))[n - 1] == Part::Type(part));
        assert(part_spans(Part::Type(typ))[n - 1] == part.span);
        if names_type(part) is None {
            assert(decreases_to!(typ => typ.parts));
            assert(decreases_to!(typ.parts => typ.parts@));
            assert(decreases_to!(typ.parts@ => typ.parts@[n - 1]));
            type_is_passed(before, pos, part);
        }
    }
}

/// The type at `k` holds the position: what is found in it stays when those behind it are passed.
proof fn found_in_types(s: Search, pos: BytePos, typ: AstType, n: nat, k: int, path: Seq<int>)
    requires
        is_laid_out(Part::Type(typ), pos),
        names_type(typ) is None,
        0 <= k < n <= typ.parts@.len(),
        part_at(Part::Type(typ.parts@[k]), path) matches Some(inner) && holds(span_of(inner), pos)
            && spot_of(inner) is Some,
    ensures
        searched_types(s, pos, typ.parts@, n).found == Some(
            spot_of(part_at(Part::Type(typ.parts@[k]), path)->0),
        ),
    decreases path.len(), 2nat, n,
{
    let whole = Part::Type(typ);
    let part = typ.parts@[n - 1];
    let before = searched_types(s, pos, typ.parts@, (n - 1) as nat);
    part_is_laid_out(whole, n - 1, pos);
    part_is_laid_out(whole, k, pos);
    assert(parts(whole)[n - 1] == Part::Type(part));
    assert(parts(whole)[k] == Part::Type(typ.parts@[k]));
    assert(part_spans(whole)[n - 1] == part.span);
    assert(part_spans(whole)[k] == typ.parts@[k].span);
    if k == n - 1 {
        is_found(before, pos, Part::Type(part), path);
    } else {
        found_in_types(s, pos, typ, (n - 1) as nat, k, path);
        whole_holds(Part::Type(typ.parts@[k]), path, pos);
        assert(part_spans(whole)[k].end.0 <= part_spans(whole)[n - 1].start.0);
        assert(!holds(part.span, pos));
        if names_type(part) is None {
            type_is_passed(before, pos, part);
        }
    }
}

/// The part `i` holds the position: no other does.
proof fn is_selected(part: Part, i: int, pos: BytePos)
    requires
        is_orderly(part, pos),
        0 <= i < parts(part).len(),
        holds(span_of(parts(part)[i]), pos),
    ensures
        part_spans(part).len() == parts(part).len(),
        part_spans(part)[i] == span_of(parts(part)[i]),
        holds(part_spans(part)[i], pos),
        select(part_spans(part), pos) == (false, Some(i)),
        forall|k: int|
            0 <= k < part_spans(part).len() && k != i ==> !holds(#[trigger] part_spans(part)[k], pos),
        holds(span_of(part), pos),
{
    let spans = part_spans(part);
    assert(spans[i] == span_of(parts(part)[i]));
    selects(spans, pos, i, 0);
    assert forall|k: int| 0 <= k < spans.len() && k != i implies !holds(#[trigger] spans[k], pos) by {
        if k < i {
            assert(spans[k].end.0 <= spans[i].start.0);
        } else {
            assert(spans[i].end.0 <= spans[k].start.0);
        }
    }
}

/// The part `i` of an expression is the one that is searched.
spec fn leads_to(s: Search, pos: BytePos, part: Part, i: int, t: Search) -> bool {
    searched_part(s, pos, part) == searched_part(t, pos, parts(part)[i])
}

spec fn can_step(part: Part, i: int, pos: BytePos) -> bool {
    &&& is_orderly(part, pos)
    &&& 0 <= i < parts(part).len()
    &&& holds(span_of(parts(part)[i]), pos)
}

proof fn step_in_list(s: Search, pos: BytePos, expr: SpannedExpr, i: int) -> (t: Search)
    requires
        can_step(Part::Expr(expr), i, pos),
        expr.value is Array || expr.value is Tuple || expr.value is Block,
    ensures
        leads_to(s, pos, Part::Expr(expr), i, t),
{
    let t = s.enclose(Spot::Expr(expr));
    let spans = part_spans(Part::Expr(expr));
    is_selected(Part::Expr(expr), i, pos);
    let exprs = match expr.value {
        Expr::Array(_, exprs) => exprs@,
        Expr::Tuple { typ: _, elems } => elems@,
        Expr::Block(exprs) => exprs@,
        _ => Seq::empty(),
    };
    assert(parts(Part::Expr(expr)) == exprs_parts(exprs));
    assert(spans =~= expr_spans(exprs));
    assert(searched(s, pos, expr) == searched_one(t, pos, exprs));
    assert(searched_one(t, pos, exprs) == searched(t, pos, exprs[i]));
    t
}

proof fn step_in_record(s: Search, pos: BytePos, expr: SpannedExpr, i: int) -> (t: Search)
    requires
        can_step(Part::Expr(expr), i, pos),
        expr.value is Record,
    ensures
        leads_to(s, pos, Part::Expr(expr), i, t),
{
    let t = s.enclose(Spot::Expr(expr));
    let spans = part_spans(Part::Expr(expr));
    is_selected(Part::Expr(expr), i, pos);
    if let Expr::Record { typ: _, types: _, exprs, base } = expr.value {
        field_parts_are_valued(exprs@, 0);
        assert(spans =~= record_spans(exprs@, base));
        assert(searched(s, pos, expr) == searched_record(t, pos, expr));
        if i < valued(exprs@, 0).len() {
            let k = valued(exprs@, 0)[i];
            assert(searched_record(t, pos, expr) == searched_value(t, pos, exprs@, k));
            assert(searched_value(t, pos, exprs@, k) == searched(t, pos, exprs@[k].value->0));
        }
    }
    t
}

proof fn step_in_call(s: Search, pos: BytePos, expr: SpannedExpr, i: int) -> (t: Search)
    requires
        can_step(Part::Expr(expr), i, pos),
        expr.value is App || expr.value is IfElse || expr.value is Do || expr.value is Match,
    ensures
        leads_to(s, pos, Part::Expr(expr), i, t),
{
    let t = s.enclose(Spot::Expr(expr));
    let spans = part_spans(Part::Expr(expr));
    is_selected(Part::Expr(expr), i, pos);
    match expr.value {
        Expr::App(func, args) => {
            assert(spans =~= seq![func.span] + expr_spans(args@));
            t
        },
        Expr::IfElse(pred, if_true, if_false) => {
            assert(spans =~= seq![pred.span, if_true.span, if_false.span]);
            t
        },
        Expr::Do(do_expr) => {
            assert(spans =~= seq![do_expr.id.span, do_expr.bound.span, do_expr.body.span]);
            t
        },
        Expr::Match(value, alts) => {
            assert(spans =~= seq![value.span] + alternative_spans(alts@));
            if i == 0 {
                t.enclose(Spot::Expr(*value))
            } else {
                t
            }
        },
        _ => t,
    }
}

proof fn step_in_operation(s: Search, pos: BytePos, expr: SpannedExpr, i: int) -> (t: Search)
    requires
        can_step(Part::Expr(expr), i, pos),
        expr.value is Infix || expr.value is Projection,
    ensures
        leads_to(s, pos, Part::Expr(expr), i, t),
{
    let t = s.enclose(Spot::Expr(expr));
    let spans = part_spans(Part::Expr(expr));
    is_selected(Part::Expr(expr), i, pos);
    match expr.value {
        Expr::Infix(l, op, r) => {
            assert(spans =~= seq![l.span, op.span, r.span]);
            assert(spans[0].end.0 <= spans[1].start.0);
            assert(spans[1].end.0 <= spans[2].start.0);
            assert(i == 0 || !holds(spans[0], pos));
            assert(i == 2 || !holds(spans[2], pos));
            t
        },
        Expr::Projection(value, _, _) => {
            assert(spans[0] == value.span);
            if i == 0 {
                t
            } else {
                t.enclose(Spot::Expr(expr))
            }
        },
        _ => t,
    }
}

/// Those of `spans` that come first are in order by themselves.
proof fn first_in_order(spans: Seq<Span>, own: Seq<Span>, pos: BytePos, i: int)
    requires
        in_order(spans, pos),
        own == spans.take(own.len() as int),
        own.len() <= spans.len(),
        0 <= i < spans.len(),
        holds(spans[i], pos),
        forall|k: int| 0 <= k < spans.len() && k != i ==> !holds(#[trigger] spans[k], pos),
    ensures
        i < own.len() ==> select(own, pos) == (false, Some(i)),
        i >= own.len() ==> select(own, pos).0,
{
    assert forall|k: int| 0 <= k < own.len() implies #[trigger] own[k] == spans[k] by {}
    if i < own.len() {
        selects(own, pos, i, 0);
    } else {
        selects_none(own, pos, 0);
    }
}

proof fn step_in_let(s: Search, pos: BytePos, expr: SpannedExpr, i: int) -> (t: Search)
    requires
        can_step(Part::Expr(expr), i, pos),
        expr.value is Lambda || expr.value is LetBindings || expr.value is TypeBindings,
    ensures
        leads_to(s, pos, Part::Expr(expr), i, t),
{
    let t = s.enclose(Spot::Expr(expr));
    let spans = part_spans(Part::Expr(expr));
    is_selected(Part::Expr(expr), i, pos);
    match expr.value {
        Expr::Lambda(lambda) => {
            let own = ident_spans(lambda.args@);
            assert(own =~= spans.take(own.len() as int));
            first_in_order(spans, own, pos, i);
            see_idents(t, lambda.args@, lambda.args@.len())
        },
        Expr::LetBindings(binds, _) => {
            let own = binding_spans(binds@);
            assert(own =~= spans.take(own.len() as int));
            first_in_order(spans, own, pos, i);
            see_bindings(t, binds@, binds@.len())
        },
        Expr::TypeBindings(binds, body) => {
            aliases_are_seen(t, binds@, binds@.len());
            assert(spans =~= type_binding_spans(binds@) + seq![body.span]);
            see_aliases(t, binds@, binds@.len())->0
        },
        _ => t,
    }
}

proof fn step_in_pattern(s: Search, pos: BytePos, pattern: SpannedPattern, i: int) -> (t: Search)
    requires
        can_step(Part::Pattern(pattern), i, pos),
    ensures
        leads_to(s, pos, Part::Pattern(pattern), i, t),
{
    let t = s.enclose(Spot::Pattern(pattern));
    let spans = part_spans(Part::Pattern(pattern));
    is_selected(Part::Pattern(pattern), i, pos);
    match pattern.value {
        Pattern::As(_, inside) => {
            assert(parts(Part::Pattern(pattern))[i] == Part::Pattern(*inside));
        },
        Pattern::Constructor(_, args) => {
            let own = pattern_spans(args@);
            assert(own =~= spans.skip(1));
            if i > 0 {
                assert(!holds(spans[0], pos));
                assert(in_order(own, pos)) by {
                    assert forall|k: int| 0 <= k < own.len() implies #[trigger] own[k] == spans[k
                        + 1] by {}
                }
                selects(own, pos, i - 1, 0);
            }
        },
        Pattern::Tuple { typ: _, elems } => {
            assert(spans =~= pattern_spans(elems@));
        },
        _ => {},
    }
    t
}

#[verifier::rlimit(30)]
proof fn step_elsewhere(s: Search, pos: BytePos, part: Part, i: int) -> (t: Search)
    requires
        can_step(part, i, pos),
        part is Binding || part is Alternative || part is TypeBinding,
    ensures
        leads_to(s, pos, part, i, t),
{
    let spans = part_spans(part);
    is_selected(part, i, pos);
    match part {
        Part::Binding(bind) => {
            assert(spans =~= binding_part_spans(bind));
            see_idents(s, bind.args@, bind.args@.len())
        },
        Part::Alternative(alt) => {
            assert(spans =~= seq![alt.pattern.span, alt.expr.span]);
            s.see(Seen::Pattern(alt.pattern))
        },
        Part::TypeBinding(bind) => {
            let data = bind.alias.value@;
            assert(spans[0] == bind.name.span);
            if i == 0 {
                s
            } else {
                assert(!holds(spans[0], pos));
                see_params(s, data.params, data.params.len())
            }
        },
        _ => s,
    }
}

/// What the search finds in `part` is what `path` leads to.
proof fn is_found(s: Search, pos: BytePos, part: Part, path: Seq<int>)
    requires
        is_laid_out(part, pos),
        part_at(part, path) matches Some(inner) && holds(span_of(inner), pos) && spot_of(inner)
            is Some,
    ensures
        searched_part(s, pos, part) matches Some(t) && t.found == Some(
            spot_of(part_at(part, path)->0),
        ),
    decreases path.len(), 1nat,
{
    assert(part_at(part, Seq::empty()) == Some(part));
    if path.len() > 0 {
        let i = path[0];
        let rest = path.drop_first();
        let inner = parts(part)[i];
        part_is_laid_out(part, i, pos);
        whole_holds(inner, rest, pos);
        if let Part::Type(typ) = part {
            assert(inner == Part::Type(typ.parts@[i]));
            is_selected(part, i, pos);
            let t = match typ.typ@ {
                Ty::Forall(params, _) => see_params(s, params, params.len()),
                _ => s,
            };
            found_in_types(t, pos, typ, typ.parts@.len(), i, rest);
        } else {
            let t = match part {
                Part::Expr(expr) => match expr.value {
                    Expr::App(..) => step_in_call(s, pos, expr, i),
                    Expr::IfElse(..) => step_in_call(s, pos, expr, i),
                    Expr::Do(..) => step_in_call(s, pos, expr, i),
                    Expr::Match(..) => step_in_call(s, pos, expr, i),
                    Expr::Infix(..) => step_in_operation(s, pos, expr, i),
                    Expr::Projection(..) => step_in_operation(s, pos, expr, i),
                    Expr::Record { .. } => step_in_record(s, pos, expr, i),
                    Expr::Array(..) => step_in_list(s, pos, expr, i),
                    Expr::Tuple { .. } => step_in_list(s, pos, expr, i),
                    Expr::Block(..) => step_in_list(s, pos, expr, i),
                    _ => step_in_let(s, pos, expr, i),
                },
                Part::Pattern(pattern) => step_in_pattern(s, pos, pattern, i),
                _ => step_elsewhere(s, pos, part, i),
            };
            is_found(t, pos, inner, rest);
        }
    }
}

/// The search finds what stands at the position: if the parts of an expression follow each other in
/// the text, and a name, a literal, a pattern or a type that is not made of others holds the
/// position, however deep inside of the expression it is, then that is what is found.
pub proof fn innermost_is_found(expr: SpannedExpr, pos: BytePos, path: Seq<int>)
    requires
        is_laid_out(Part::Expr(expr), pos),
        part_at(Part::Expr(expr), path) matches Some(inner) && holds(span_of(inner), pos)
            && spot_of(inner) is Some,
    ensures
        completed(expr, pos) matches Some(search) && search.found == Some(
            spot_of(part_at(Part::Expr(expr), path)->0),
        ),
{
    let start = Search { found: None, enclosing: Seq::empty(), seen: Seq::empty() };
    is_found(start, pos, Part::Expr(expr), path);
}

} // verus!
