//! Primitive auto completion and type quering on ASTs

use vstd::prelude::*;
use vstd::string::*;
use vstd::utf8::*;
use crate::ast::{
    Alternative, AstType, Expr, ExprField, Pattern, PatternField, PatternTypeField, SpannedExpr,
    SpannedIdent, SpannedPattern, TypeBinding, TypedIdent, ValueBinding,
};
use crate::kind::{ArcKind, Kind, KindCache};
use crate::pos::{BytePos, Containment, Span, NO_EXPANSION};
use crate::symbol::Symbol;
use crate::types::model::{AliasDataTy, FieldTy, GenericTy, Ty};
use crate::types::query::kind_of;
use crate::types::rows::{row_fields, row_iter, type_field_iter, type_fields};
use crate::types::{generics_view, AliasData, ArcType, Generic, Type};

verus! {

/// What stands at a position.
pub enum Spot {
    Expr(SpannedExpr),
    Pattern(SpannedPattern),
    Ident(Span, Seq<char>, Ty),
    Type(Span, Seq<char>, Kind),
}

/// What stands at a position.
pub enum Match<'a> {
    Expr(&'a SpannedExpr),
    Pattern(&'a SpannedPattern),
    Ident(Span, &'a Symbol, &'a ArcType),
    Type(Span, &'a Symbol, ArcKind),
}

impl<'a> View for Match<'a> {
    type V = Spot;

    open spec fn view(&self) -> Spot {
        match self {
            Match::Expr(expr) => Spot::Expr(**expr),
            Match::Pattern(pattern) => Spot::Pattern(**pattern),
            Match::Ident(span, id, typ) => Spot::Ident(*span, id@, typ@),
            Match::Type(span, id, kind) => Spot::Type(*span, id@, **kind),
        }
    }
}

/// Something that is in scope at the position that is searched.
pub enum Seen {
    Ident(TypedIdent),
    TypeIdent(GenericTy),
    Pattern(SpannedPattern),
    Alias(AliasDataTy),
}

/// Something that is in scope at the position that is searched.
pub enum InScope<'a> {
    Ident(&'a TypedIdent),
    TypeIdent(&'a Generic),
    Pattern(&'a SpannedPattern),
    Alias(&'a AliasData),
}

impl<'a> View for InScope<'a> {
    type V = Seen;

    open spec fn view(&self) -> Seen {
        match self {
            InScope::Ident(id) => Seen::Ident(**id),
            InScope::TypeIdent(gen) => Seen::TypeIdent(gen@),
            InScope::Pattern(pattern) => Seen::Pattern(**pattern),
            InScope::Alias(alias) => Seen::Alias(alias@),
        }
    }
}

/// How far a search has come.
pub struct Search {
    /// What was found: nothing, if the position is not at anything.
    pub found: Option<Option<Spot>>,
    /// What encloses the position, the outermost first.
    pub enclosing: Seq<Spot>,
    /// What is in scope.
    pub seen: Seq<Seen>,
}

impl Search {
    pub open spec fn find(self, found: Option<Spot>) -> Search {
        Search { found: Some(found), ..self }
    }

    pub open spec fn enclose(self, spot: Spot) -> Search {
        Search { enclosing: self.enclosing.push(spot), ..self }
    }

    pub open spec fn see(self, seen: Seen) -> Search {
        Search { seen: self.seen.push(seen), ..self }
    }
}

/// Which of `spans`, from `i` on, `pos` belongs to. Between two spans it belongs to the first of
/// them, and the flag is set.
pub open spec fn select_from(spans: Seq<Span>, pos: BytePos, i: int) -> (bool, Option<int>)
    decreases spans.len() - i,
{
    let prev = if i > 0 {
        Some(i - 1)
    } else {
        None
    };
    if i < 0 || i >= spans.len() {
        (true, prev)
    } else {
        match spans[i].contains(pos) {
            Containment::Equal => (false, Some(i)),
            Containment::Less => if i > 0 {
                (true, prev)
            } else {
                select_from(spans, pos, i + 1)
            },
            Containment::Greater => select_from(spans, pos, i + 1),
        }
    }
}

/// Which of `spans` `pos` belongs to.
pub open spec fn select(spans: Seq<Span>, pos: BytePos) -> (bool, Option<int>) {
    select_from(spans, pos, 0)
}

/// What is selected is one of the spans, and something is if there are any.
pub proof fn select_in_range(spans: Seq<Span>, pos: BytePos, i: int)
    requires
        0 <= i <= spans.len(),
    ensures
        match select_from(spans, pos, i).1 {
            Some(k) => 0 <= k < spans.len(),
            None => spans.len() == 0,
        },
    decreases spans.len() - i,
{
    if i < spans.len() {
        select_in_range(spans, pos, i + 1);
    }
}

fn select_spanned(spans: &Vec<Span>, pos: BytePos) -> (res: (bool, Option<usize>))
    ensures
        res.0 == select(spans@, pos).0,
        match res.1 {
            Some(i) => select(spans@, pos).1 == Some(i as int) && i < spans@.len(),
            None => select(spans@, pos).1 is None && spans@.len() == 0,
        },
{
    proof {
        select_in_range(spans@, pos, 0);
    }
    let mut i: usize = 0;
    while i < spans.len()
        invariant
            i <= spans@.len(),
            select(spans@, pos) == select_from(spans@, pos, i as int),
        decreases spans@.len() - i,
    {
        match spans[i].containment(pos) {
            Containment::Equal => {
                return (false, Some(i));
            },
            Containment::Less => {
                if i > 0 {
                    return (true, Some(i - 1));
                }
            },
            Containment::Greater => {},
        }
        i += 1;
    }
    if i > 0 {
        (true, Some(i - 1))
    } else {
        (true, None)
    }
}

pub open spec fn expr_spans(exprs: Seq<SpannedExpr>) -> Seq<Span> {
    exprs.map_values(|e: SpannedExpr| e.span)
}

pub open spec fn pattern_spans(patterns: Seq<SpannedPattern>) -> Seq<Span> {
    patterns.map_values(|p: SpannedPattern| p.span)
}

pub open spec fn ident_spans(idents: Seq<SpannedIdent>) -> Seq<Span> {
    idents.map_values(|i: SpannedIdent| i.span)
}

pub open spec fn alternative_spans(alts: Seq<Alternative>) -> Seq<Span> {
    alts.map_values(|a: Alternative| Span::between(a.pattern.span.start, a.expr.span.end))
}

pub open spec fn binding_spans(binds: Seq<ValueBinding>) -> Seq<Span> {
    binds.map_values(|b: ValueBinding| Span::between(b.name.span.start, b.expr.span.end))
}

pub open spec fn type_binding_spans(binds: Seq<TypeBinding>) -> Seq<Span> {
    binds.map_values(|b: TypeBinding| Span::between(b.name.span.start, b.alias.span.end))
}

/// The parts of a binding: its name, its arguments, its type and its value.
pub open spec fn binding_part_spans(bind: ValueBinding) -> Seq<Span> {
    seq![bind.name.span] + ident_spans(bind.args@) + match bind.typ {
        Some(typ) => seq![typ.span],
        None => Seq::empty(),
    } + seq![bind.expr.span]
}

/// The positions of the fields that have values, from `from` on.
pub open spec fn valued(fields: Seq<ExprField>, from: int) -> Seq<int>
    decreases fields.len() - from,
{
    if from < 0 || from >= fields.len() {
        Seq::empty()
    } else if fields[from].value is Some {
        seq![from] + valued(fields, from + 1)
    } else {
        valued(fields, from + 1)
    }
}

/// The values of a record, and the record that it extends.
pub open spec fn record_spans(fields: Seq<ExprField>, base: Option<Box<SpannedExpr>>) -> Seq<Span> {
    valued(fields, 0).map_values(|i: int| fields[i].value->0.span) + match base {
        Some(base) => seq![base.span],
        None => Seq::empty(),
    }
}

/// An entry of a record pattern.
pub enum Entry {
    Type(int),
    Field(int),
}

/// The entries of a record pattern in the order in which they stand in the source, from the
/// associated type `i` and the field `j` on.
pub open spec fn entries(
    types: Seq<PatternTypeField>,
    fields: Seq<PatternField>,
    i: int,
    j: int,
) -> Seq<Entry>
    decreases types.len() - i + fields.len() - j,
{
    if i < 0 || j < 0 || i > types.len() || j > fields.len() {
        Seq::empty()
    } else if i < types.len() && j < fields.len() {
        if types[i].name.span.start.0 < fields[j].name.span.start.0 {
            seq![Entry::Type(i)] + entries(types, fields, i + 1, j)
        } else {
            seq![Entry::Field(j)] + entries(types, fields, i, j + 1)
        }
    } else if i < types.len() {
        seq![Entry::Type(i)] + entries(types, fields, i + 1, j)
    } else if j < fields.len() {
        seq![Entry::Field(j)] + entries(types, fields, i, j + 1)
    } else {
        Seq::empty()
    }
}

pub open spec fn entry_span(
    types: Seq<PatternTypeField>,
    fields: Seq<PatternField>,
    entry: Entry,
) -> Span {
    match entry {
        Entry::Type(i) => types[i].name.span,
        Entry::Field(j) => Span::between(
            fields[j].name.span.start,
            match fields[j].value {
                Some(pattern) => pattern.span.end,
                None => fields[j].name.span.end,
            },
        ),
    }
}

pub open spec fn entry_spans(
    types: Seq<PatternTypeField>,
    fields: Seq<PatternField>,
    entries: Seq<Entry>,
) -> Seq<Span> {
    entries.map_values(|e: Entry| entry_span(types, fields, e))
}

/// The type of the first of `fields` that is named `name`, from `from` on, or `default`.
pub open spec fn field_type(fields: Seq<FieldTy>, name: Seq<char>, from: int, default: Ty) -> Ty
    decreases fields.len() - from,
{
    if from < 0 || from >= fields.len() {
        default
    } else if fields[from].name == name {
        fields[from].typ
    } else {
        field_type(fields, name, from + 1, default)
    }
}

/// The span of the constructor `name` at the start of a pattern, if there is room for it.
pub open spec fn constructor_span(start: BytePos, name: Seq<char>) -> Option<Span> {
    if start.0 + encode_utf8(name).len() <= u32::MAX {
        Some(Span::between(start, BytePos((start.0 + encode_utf8(name).len()) as u32)))
    } else {
        None
    }
}

/// The search in the type `t`.
pub open spec fn searched_type(s: Search, pos: BytePos, t: AstType) -> Search
    decreases t, 1nat,
{
    if !(t.typ@ is ExtendRow) && t.span.contains(pos) != Containment::Equal {
        s
    } else {
        match t.typ@ {
            Ty::Ident(id) => s.find(Some(Spot::Type(t.span, id, Kind::Hole))),
            Ty::Generic(gen) => s.find(Some(Spot::Type(t.span, gen.id, *gen.kind))),
            Ty::Alias(alias) => s.find(
                Some(Spot::Type(t.span, alias.data().name, kind_of(t.typ@, 0))),
            ),
            Ty::Forall(params, _) => searched_types(
                see_params(s, params, params.len()),
                pos,
                t.parts@,
                t.parts@.len(),
            ),
            _ => searched_types(s, pos, t.parts@, t.parts@.len()),
        }
    }
}

pub open spec fn searched_types(s: Search, pos: BytePos, types: Seq<AstType>, n: nat) -> Search
    decreases types, n,
{
    if n == 0 || n > types.len() {
        s
    } else {
        searched_type(searched_types(s, pos, types, (n - 1) as nat), pos, types[n - 1])
    }
}

pub open spec fn see_params(s: Search, params: Seq<GenericTy>, n: nat) -> Search
    decreases n,
{
    if n == 0 || n > params.len() {
        s
    } else {
        see_params(s, params, (n - 1) as nat).see(Seen::TypeIdent(params[n - 1]))
    }
}

pub open spec fn see_idents(s: Search, idents: Seq<SpannedIdent>, n: nat) -> Search
    decreases n,
{
    if n == 0 || n > idents.len() {
        s
    } else {
        see_idents(s, idents, (n - 1) as nat).see(Seen::Ident(idents[n - 1].value))
    }
}

pub open spec fn see_bindings(s: Search, binds: Seq<ValueBinding>, n: nat) -> Search
    decreases n,
{
    if n == 0 || n > binds.len() {
        s
    } else {
        see_bindings(s, binds, (n - 1) as nat).see(Seen::Pattern(binds[n - 1].name))
    }
}

/// The aliases of `binds`, which have to be resolved.
pub open spec fn see_aliases(s: Search, binds: Seq<TypeBinding>, n: nat) -> Option<Search>
    decreases n,
{
    if n == 0 || n > binds.len() {
        Some(s)
    } else {
        match (see_aliases(s, binds, (n - 1) as nat), binds[n - 1].finalized_alias) {
            (Some(s), Some(alias)) => Some(s.see(Seen::Alias(alias@.data()))),
            _ => None,
        }
    }
}

/// The search in `pattern`. There is none in a tuple without elements.
pub open spec fn searched_pattern(s: Search, pos: BytePos, pattern: SpannedPattern) -> Option<Search>
    decreases pattern, 1nat,
{
    let at = pattern.span.contains(pos) == Containment::Equal;
    let s = if at {
        s.enclose(Spot::Pattern(pattern))
    } else {
        s
    };
    match pattern.value {
        Pattern::As(_, inner) => searched_pattern(s, pos, *inner),
        Pattern::Constructor(id, args) => match constructor_span(pattern.span.start, id.name@) {
            None => None,
            Some(span) => if span.contains(pos) == Containment::Equal {
                Some(s.find(Some(Spot::Pattern(pattern))))
            } else {
                match select(pattern_spans(args@), pos).1 {
                    Some(i) => if 0 <= i < args@.len() {
                        searched_pattern(s, pos, args@[i])
                    } else {
                        None
                    },
                    None => Some(s.find(None)),
                }
            },
        },
        Pattern::Record { typ, types, fields } => {
            let all = entries(types@, fields@, 0, 0);
            let (between, selected) = select(entry_spans(types@, fields@, all), pos);
            if between {
                Some(s.find(None))
            } else {
                match selected {
                    Some(k) => searched_entry(s, pos, typ@, types@, fields@, all[k]),
                    None => Some(s.find(None)),
                }
            }
        },
        Pattern::Tuple { typ: _, elems } => match select(pattern_spans(elems@), pos).1 {
            Some(i) => if 0 <= i < elems@.len() {
                searched_pattern(s, pos, elems@[i])
            } else {
                None
            },
            None => None,
        },
        Pattern::Ident(_) => Some(
            s.find(
                if at {
                    Some(Spot::Pattern(pattern))
                } else {
                    None
                },
            ),
        ),
        Pattern::Error => Some(
            s.find(
                if at {
                    Some(Spot::Pattern(pattern))
                } else {
                    None
                },
            ),
        ),
    }
}

/// The search in an entry of a record pattern of type `typ`.
pub open spec fn searched_entry(
    s: Search,
    pos: BytePos,
    typ: Ty,
    types: Seq<PatternTypeField>,
    fields: Seq<PatternField>,
    entry: Entry,
) -> Option<Search>
    decreases fields, 0nat,
{
    match entry {
        Entry::Type(i) => {
            let name = types[i].name;
            Some(
                s.find(
                    if name.span.contains(pos) == Containment::Equal {
                        Some(
                            Spot::Ident(
                                name.span,
                                name.value@,
                                field_type(type_fields(typ), name.value@, 0, typ),
                            ),
                        )
                    } else {
                        None
                    },
                ),
            )
        },
        Entry::Field(j) => if 0 <= j < fields.len() {
            let name = fields[j].name;
            match (name.span.contains(pos), fields[j].value) {
                (Containment::Equal, _) => Some(
                    s.find(
                        Some(
                            Spot::Ident(
                                name.span,
                                name.value@,
                                field_type(row_fields(typ), name.value@, 0, typ),
                            ),
                        ),
                    ),
                ),
                (Containment::Greater, Some(pattern)) => searched_pattern(s, pos, pattern),
                _ => Some(s.find(None)),
            }
        } else {
            None
        },
    }
}

/// The search in a pattern that may come from a macro: what does is passed over.
pub open spec fn passed_pattern(s: Search, pos: BytePos, pattern: SpannedPattern) -> Option<Search>
    decreases pattern, 2nat,
{
    if pattern.span.expansion_id == NO_EXPANSION {
        searched_pattern(s, pos, pattern)
    } else {
        let s = s.see(Seen::Pattern(pattern));
        match pattern.value {
            Pattern::As(_, inner) => passed_pattern(s, pos, *inner),
            Pattern::Constructor(_, args) => passed_patterns(s, pos, args@, args@.len()),
            Pattern::Record { typ: _, types: _, fields } => passed_fields(
                s,
                pos,
                fields@,
                fields@.len(),
            ),
            Pattern::Tuple { typ: _, elems } => passed_patterns(s, pos, elems@, elems@.len()),
            _ => Some(s),
        }
    }
}

pub open spec fn passed_patterns(
    s: Search,
    pos: BytePos,
    patterns: Seq<SpannedPattern>,
    n: nat,
) -> Option<Search>
    decreases patterns, n,
{
    if n == 0 || n > patterns.len() {
        Some(s)
    } else {
        match passed_patterns(s, pos, patterns, (n - 1) as nat) {
            Some(s) => passed_pattern(s, pos, patterns[n - 1]),
            None => None,
        }
    }
}

pub open spec fn passed_fields(
    s: Search,
    pos: BytePos,
    fields: Seq<PatternField>,
    n: nat,
) -> Option<Search>
    decreases fields, n,
{
    if n == 0 || n > fields.len() {
        Some(s)
    } else {
        match passed_fields(s, pos, fields, (n - 1) as nat) {
            Some(s) => match fields[n - 1].value {
                Some(pattern) => passed_pattern(s, pos, pattern),
                None => Some(s),
            },
            None => None,
        }
    }
}

/// The search in an expression that may come from a macro: what does is passed over. The search
/// stops at the first thing that is found.
pub open spec fn passed(s: Search, pos: BytePos, expr: SpannedExpr) -> Option<Search>
    decreases expr, 3nat,
{
    if s.found is Some {
        Some(s)
    } else if expr.span.expansion_id == NO_EXPANSION {
        searched(s, pos, expr)
    } else {
        passed_inside(s, pos, expr)
    }
}

pub open spec fn passed_all(s: Search, pos: BytePos, exprs: Seq<SpannedExpr>, n: nat) -> Option<Search>
    decreases exprs, n,
{
    if n == 0 || n > exprs.len() {
        Some(s)
    } else {
        match passed_all(s, pos, exprs, (n - 1) as nat) {
            Some(s) => passed(s, pos, exprs[n - 1]),
            None => None,
        }
    }
}

pub open spec fn passed_alternatives(
    s: Search,
    pos: BytePos,
    alts: Seq<Alternative>,
    n: nat,
) -> Option<Search>
    decreases alts, n,
{
    if n == 0 || n > alts.len() {
        Some(s)
    } else {
        match passed_alternatives(s, pos, alts, (n - 1) as nat) {
            Some(s) => match passed_pattern(s, pos, alts[n - 1].pattern) {
                Some(s) => passed(s, pos, alts[n - 1].expr),
                None => None,
            },
            None => None,
        }
    }
}

pub open spec fn passed_values(s: Search, pos: BytePos, fields: Seq<ExprField>, n: nat) -> Option<Search>
    decreases fields, n,
{
    if n == 0 || n > fields.len() {
        Some(s)
    } else {
        match passed_values(s, pos, fields, (n - 1) as nat) {
            Some(s) => match fields[n - 1].value {
                Some(expr) => passed(s, pos, expr),
                None => Some(s),
            },
            None => None,
        }
    }
}

/// The search inside an expression that comes from a macro.
pub open spec fn passed_inside(s: Search, pos: BytePos, expr: SpannedExpr) -> Option<Search>
    decreases expr, 1nat,
{
    match expr.value {
        Expr::TypeBindings(binds, body) => match see_aliases(s, binds@, binds@.len()) {
            Some(s) => searched(s, pos, *body),
            None => None,
        },
        Expr::LetBindings(binds, body) => searched(
            see_bindings(s, binds@, binds@.len()),
            pos,
            *body,
        ),
        Expr::App(func, args) => match passed(s, pos, *func) {
            Some(s) => passed_all(s, pos, args@, args@.len()),
            None => None,
        },
        Expr::IfElse(pred, if_true, if_false) => match passed(s, pos, *pred) {
            Some(s) => match passed(s, pos, *if_true) {
                Some(s) => passed(s, pos, *if_false),
                None => None,
            },
            None => None,
        },
        Expr::Match(value, alts) => match passed(s, pos, *value) {
            Some(s) => passed_alternatives(s, pos, alts@, alts@.len()),
            None => None,
        },
        Expr::Infix(l, _, r) => match passed(s, pos, *l) {
            Some(s) => passed(s, pos, *r),
            None => None,
        },
        Expr::Projection(value, _, _) => passed(s, pos, *value),
        Expr::Array(_, exprs) => passed_all(s, pos, exprs@, exprs@.len()),
        Expr::Record { typ: _, types: _, exprs, base } => match passed_values(
            s,
            pos,
            exprs@,
            exprs@.len(),
        ) {
            Some(s) => match base {
                Some(base) => passed(s, pos, *base),
                None => Some(s),
            },
            None => None,
        },
        Expr::Lambda(lambda) => passed(s, pos, *lambda.body),
        Expr::Tuple { typ: _, elems } => passed_all(s, pos, elems@, elems@.len()),
        Expr::Block(exprs) => passed_all(s, pos, exprs@, exprs@.len()),
        Expr::Do(do_expr) => match passed(s, pos, *do_expr.bound) {
            Some(s) => passed(s, pos, *do_expr.body),
            None => None,
        },
        Expr::Ident(_) => Some(s),
        Expr::Literal(_) => Some(s),
        Expr::Error => Some(s),
    }
}

/// The search in the one of `exprs` that `pos` belongs to.
pub open spec fn searched_one(s: Search, pos: BytePos, exprs: Seq<SpannedExpr>) -> Option<Search>
    decreases exprs, 0nat,
{
    match select(expr_spans(exprs), pos).1 {
        Some(i) => if 0 <= i < exprs.len() {
            searched(s, pos, exprs[i])
        } else {
            None
        },
        None => None,
    }
}

/// The search in an alternative of a match.
pub open spec fn searched_alternative(s: Search, pos: BytePos, alt: Alternative) -> Option<Search>
    decreases alt, 0nat,
{
    let s = s.see(Seen::Pattern(alt.pattern));
    if select(seq![alt.pattern.span, alt.expr.span], pos).1 == Some(0int) {
        searched_pattern(s, pos, alt.pattern)
    } else {
        searched(s, pos, alt.expr)
    }
}

/// The search in a binding.
pub open spec fn searched_binding(s: Search, pos: BytePos, bind: ValueBinding) -> Option<Search>
    decreases bind, 0nat,
{
    let s = see_idents(s, bind.args@, bind.args@.len());
    let n = bind.args@.len();
    match select(binding_part_spans(bind), pos).1 {
        Some(k) => if k == 0 {
            searched_pattern(s, pos, bind.name)
        } else if 1 <= k <= n {
            let arg = bind.args@[k - 1];
            Some(s.find(Some(Spot::Ident(arg.span, arg.value.name@, arg.value.typ@))))
        } else if k == n + 1 && bind.typ is Some {
            Some(searched_type(s, pos, bind.typ->0))
        } else {
            searched(s, pos, bind.expr)
        },
        None => None,
    }
}

/// The search in the declaration of a type.
pub open spec fn searched_type_binding(s: Search, pos: BytePos, bind: TypeBinding) -> Search {
    let data = bind.alias.value@;
    if bind.name.span.contains(pos) == Containment::Equal {
        s.find(Some(Spot::Type(bind.name.span, data.name, kind_of(data.typ, 0))))
    } else {
        searched_type(see_params(s, data.params, data.params.len()), pos, bind.aliased_type)
    }
}

/// The search in `expr`. There is none where `pos` falls into an array without elements, or where
/// an alias has not been resolved.
pub open spec fn searched(s: Search, pos: BytePos, expr: SpannedExpr) -> Option<Search>
    decreases expr, 2nat,
{
    if expr.span.expansion_id != NO_EXPANSION {
        // When inside a macro expanded expression we do a exhaustive search for an unexpanded
        // expression
        if s.found is Some {
            Some(s)
        } else {
            passed_inside(s, pos, expr)
        }
    } else {
        let s = s.enclose(Spot::Expr(expr));
        let here = s.find(
            if expr.span.contains(pos) == Containment::Equal {
                Some(Spot::Expr(expr))
            } else {
                None
            },
        );
        match expr.value {
            Expr::Ident(_) => Some(here),
            Expr::Literal(_) => Some(here),
            Expr::App(func, args) => match select(
                seq![func.span] + expr_spans(args@),
                pos,
            ).1 {
                Some(i) => if i == 0 {
                    searched(s, pos, *func)
                } else if 1 <= i <= args@.len() {
                    searched(s, pos, args@[i - 1])
                } else {
                    None
                },
                None => None,
            },
            Expr::IfElse(pred, if_true, if_false) => match select(
                seq![pred.span, if_true.span, if_false.span],
                pos,
            ).1 {
                Some(i) => if i == 0 {
                    searched(s, pos, *pred)
                } else if i == 1 {
                    searched(s, pos, *if_true)
                } else {
                    searched(s, pos, *if_false)
                },
                None => None,
            },
            Expr::Match(value, alts) => match select(
                seq![value.span] + alternative_spans(alts@),
                pos,
            ).1 {
                Some(i) => if i == 0 {
                    searched(s.enclose(Spot::Expr(*value)), pos, *value)
                } else if 1 <= i <= alts@.len() {
                    searched_alternative(s, pos, alts@[i - 1])
                } else {
                    None
                },
                None => None,
            },
            Expr::Infix(l, op, r) => match (l.span.contains(pos), r.span.contains(pos)) {
                (Containment::Greater, Containment::Less) => Some(
                    s.find(Some(Spot::Ident(op.span, op.value.name@, op.value.typ@))),
                ),
                (_, Containment::Greater) => searched(s, pos, *r),
                (_, Containment::Equal) => searched(s, pos, *r),
                _ => searched(s, pos, *l),
            },
            Expr::LetBindings(binds, body) => {
                let s = see_bindings(s, binds@, binds@.len());
                match select(binding_spans(binds@), pos) {
                    (false, Some(i)) => if 0 <= i < binds@.len() {
                        searched_binding(s, pos, binds@[i])
                    } else {
                        None
                    },
                    _ => searched(s, pos, *body),
                }
            },
            Expr::TypeBindings(binds, body) => match see_aliases(s, binds@, binds@.len()) {
                Some(s) => match select(type_binding_spans(binds@) + seq![body.span], pos).1 {
                    Some(i) => if 0 <= i < binds@.len() {
                        Some(searched_type_binding(s, pos, binds@[i]))
                    } else {
                        searched(s, pos, *body)
                    },
                    None => None,
                },
                None => None,
            },
            Expr::Projection(value, id, typ) => if value.span.contains(pos)
                == Containment::Greater {
                Some(
                    s.enclose(Spot::Expr(expr)).find(Some(Spot::Ident(expr.span, id@, typ@))),
                )
            } else {
                searched(s, pos, *value)
            },
            Expr::Array(_, exprs) => searched_one(s, pos, exprs@),
            Expr::Record { .. } => searched_record(s, pos, expr),
            Expr::Lambda(lambda) => {
                let s = see_idents(s, lambda.args@, lambda.args@.len());
                match select(ident_spans(lambda.args@), pos) {
                    (false, Some(i)) => {
                        let arg = lambda.args@[i];
                        Some(s.find(Some(Spot::Ident(arg.span, arg.value.name@, arg.value.typ@))))
                    },
                    _ => searched(s, pos, *lambda.body),
                }
            },
            Expr::Tuple { typ: _, elems } => if elems@.len() == 0 {
                Some(s.find(Some(Spot::Expr(expr))))
            } else {
                searched_one(s, pos, elems@)
            },
            Expr::Block(exprs) => if exprs@.len() == 0 {
                Some(s.find(Some(Spot::Expr(expr))))
            } else {
                searched_one(s, pos, exprs@)
            },
            Expr::Do(do_expr) => match select(
                seq![do_expr.id.span, do_expr.bound.span, do_expr.body.span],
                pos,
            ).1 {
                Some(i) => if i == 0 {
                    let id = do_expr.id;
                    Some(s.find(Some(Spot::Ident(id.span, id.value.name@, id.value.typ@))))
                } else if i == 1 {
                    searched(s, pos, *do_expr.bound)
                } else {
                    searched(s, pos, *do_expr.body)
                },
                None => None,
            },
            Expr::Error => Some(s),
        }
    }
}

/// The search in the values of a record.
pub open spec fn searched_record(s: Search, pos: BytePos, expr: SpannedExpr) -> Option<Search>
    decreases expr, 1nat,
{
    match expr.value {
        Expr::Record { typ: _, types: _, exprs, base } => match select(
            record_spans(exprs@, base),
            pos,
        ).1 {
            Some(k) => {
                let values = valued(exprs@, 0);
                if 0 <= k < values.len() {
                    searched_value(s, pos, exprs@, values[k])
                } else {
                    match base {
                        Some(base) => searched(s, pos, *base),
                        None => None,
                    }
                }
            },
            None => Some(s),
        },
        _ => None,
    }
}

/// The search in the value of the field `i`.
pub open spec fn searched_value(s: Search, pos: BytePos, fields: Seq<ExprField>, i: int) -> Option<Search>
    decreases fields, 0nat,
{
    if 0 <= i < fields.len() {
        match fields[i].value {
            Some(expr) => searched(s, pos, expr),
            None => None,
        }
    } else {
        None
    }
}

/// The search in the whole of `expr`.
pub open spec fn completed(expr: SpannedExpr, pos: BytePos) -> Option<Search> {
    searched(Search { found: None, enclosing: Seq::empty(), seen: Seq::empty() }, pos, expr)
}

pub open spec fn matches_view<'a>(matches: Seq<Match<'a>>) -> Seq<Spot> {
    matches.map_values(|m: Match<'a>| m@)
}

pub open spec fn scope_view<'a>(seen: Seq<InScope<'a>>) -> Seq<Seen> {
    seen.map_values(|s: InScope<'a>| s@)
}

pub open spec fn spot_of<'a>(found: Option<Match<'a>>) -> Option<Spot> {
    match found {
        Some(found) => Some(found@),
        None => None,
    }
}

struct FindVisitor<'a> {
    pos: BytePos,
    found: Option<Option<Match<'a>>>,
    enclosing_matches: Vec<Match<'a>>,
    seen: Vec<InScope<'a>>,
}

impl<'a> View for FindVisitor<'a> {
    type V = Search;

    closed spec fn view(&self) -> Search {
        Search {
            found: match self.found {
                Some(found) => Some(spot_of(found)),
                None => None,
            },
            enclosing: matches_view(self.enclosing_matches@),
            seen: scope_view(self.seen@),
        }
    }
}

/// The type of the field `name` of `typ`, or `typ` itself.
fn find_field_type<'a>(typ: &'a ArcType, name: &Symbol) -> (res: &'a ArcType)
    ensures
        res@ == field_type(row_fields(typ@), name@, 0, typ@),
{
    let ghost all = row_fields(typ@);
    let mut iter = row_iter(typ);
    let ghost mut i: int = 0;
    assert(all.skip(0) =~= all);
    loop
        invariant
            all == row_fields(typ@),
            iter.wf(),
            0 <= i <= all.len(),
            iter@ == all.skip(i),
            field_type(all, name@, 0, typ@) == field_type(all, name@, i, typ@),
        decreases all.len() - i,
    {
        match iter.next() {
            Some(field) => {
                proof {
                    assert(all.skip(i)[0] == all[i]);
                    assert(all.skip(i).drop_first() =~= all.skip(i + 1));
                }
                if field.name.name_eq(name) {
                    return &field.typ;
                }
                proof {
                    i = i + 1;
                }
            },
            None => {
                return typ;
            },
        }
    }
}

/// The associated type `name` of `typ`, or `typ` itself.
fn find_type_field<'a>(typ: &'a ArcType, name: &Symbol) -> (res: &'a ArcType)
    ensures
        res@ == field_type(type_fields(typ@), name@, 0, typ@),
{
    let ghost all = type_fields(typ@);
    let mut iter = type_field_iter(typ);
    let ghost mut i: int = 0;
    assert(all.skip(0) =~= all);
    loop
        invariant
            all == type_fields(typ@),
            iter.wf(),
            0 <= i <= all.len(),
            iter@ == all.skip(i),
            field_type(all, name@, 0, typ@) == field_type(all, name@, i, typ@),
        decreases all.len() - i,
    {
        match iter.next() {
            Some(field) => {
                proof {
                    assert(all.skip(i)[0] == all[i]);
                    assert(all.skip(i).drop_first() =~= all.skip(i + 1));
                }
                if field.name.name_eq(name) {
                    return field.typ.as_type();
                }
                proof {
                    i = i + 1;
                }
            },
            None => {
                return typ;
            },
        }
    }
}

/// An entry of a record pattern.
#[derive(Copy, Clone)]
enum EntryIndex {
    Type(usize),
    Field(usize),
}

impl View for EntryIndex {
    type V = Entry;

    closed spec fn view(&self) -> Entry {
        match self {
            EntryIndex::Type(i) => Entry::Type(*i as int),
            EntryIndex::Field(j) => Entry::Field(*j as int),
        }
    }
}

spec fn entries_view(entries: Seq<EntryIndex>) -> Seq<Entry> {
    entries.map_values(|e: EntryIndex| e@)
}

/// The entries of a record pattern in order, and their spans.
fn order_entries(types: &Vec<PatternTypeField>, fields: &Vec<PatternField>) -> (res: (
    Vec<EntryIndex>,
    Vec<Span>,
))
    ensures
        entries_view(res.0@) == entries(types@, fields@, 0, 0),
        res.1@ == entry_spans(types@, fields@, entries(types@, fields@, 0, 0)),
        res.0@.len() == res.1@.len(),
        forall|k: int|
            0 <= k < res.0@.len() ==> match #[trigger] res.0@[k] {
                EntryIndex::Type(i) => i < types@.len(),
                EntryIndex::Field(j) => j < fields@.len(),
            },
{
    let ghost whole = entries(types@, fields@, 0, 0);
    let mut res: Vec<EntryIndex> = Vec::new();
    let mut spans: Vec<Span> = Vec::new();
    let mut i: usize = 0;
    let mut j: usize = 0;
    assert(entries_view(res@) + whole =~= whole);
    assert(spans@ =~= entry_spans(types@, fields@, entries_view(res@)));
    while i < types.len() || j < fields.len()
        invariant
            i <= types@.len(),
            j <= fields@.len(),
            entries_view(res@) + entries(types@, fields@, i as int, j as int) == whole,
            spans@ == entry_spans(types@, fields@, entries_view(res@)),
            forall|k: int|
                0 <= k < res@.len() ==> match #[trigger] res@[k] {
                    EntryIndex::Type(i) => i < types@.len(),
                    EntryIndex::Field(j) => j < fields@.len(),
                },
        decreases types@.len() - i + fields@.len() - j,
    {
        let ghost before = entries_view(res@);
        let ghost spans_before = spans@;
        let take_type = if i < types.len() && j < fields.len() {
            types[i].name.span.start.0 < fields[j].name.span.start.0
        } else {
            i < types.len()
        };
        if take_type {
            res.push(EntryIndex::Type(i));
            spans.push(types[i].name.span);
            i += 1;
        } else {
            res.push(EntryIndex::Field(j));
            let end = match &fields[j].value {
                Some(pattern) => pattern.span.end,
                None => fields[j].name.span.end,
            };
            spans.push(Span::new(fields[j].name.span.start, end));
            j += 1;
        }
        proof {
            let more = entries(types@, fields@, i as int, j as int);
            assert(entries_view(res@) =~= before.push(res@.last()@));
            assert(entries_view(res@) + more =~= before + (seq![res@.last()@] + more));
            assert(spans@ =~= entry_spans(types@, fields@, entries_view(res@)));
        }
    }
    assert(entries_view(res@) + Seq::<Entry>::empty() =~= entries_view(res@));
    (res, spans)
}

fn spans_of_exprs(exprs: &Vec<SpannedExpr>) -> (res: Vec<Span>)
    ensures
        res@ == expr_spans(exprs@),
{
    let mut res: Vec<Span> = Vec::new();
    let mut i: usize = 0;
    while i < exprs.len()
        invariant
            i <= exprs@.len(),
            res@ =~= expr_spans(exprs@).take(i as int),
        decreases exprs@.len() - i,
    {
        res.push(exprs[i].span);
        i += 1;
    }
    assert(res@ =~= expr_spans(exprs@));
    res
}

fn spans_of_patterns(patterns: &Vec<SpannedPattern>) -> (res: Vec<Span>)
    ensures
        res@ == pattern_spans(patterns@),
{
    let mut res: Vec<Span> = Vec::new();
    let mut i: usize = 0;
    while i < patterns.len()
        invariant
            i <= patterns@.len(),
            res@ =~= pattern_spans(patterns@).take(i as int),
        decreases patterns@.len() - i,
    {
        res.push(patterns[i].span);
        i += 1;
    }
    assert(res@ =~= pattern_spans(patterns@));
    res
}

fn spans_of_idents(idents: &Vec<SpannedIdent>) -> (res: Vec<Span>)
    ensures
        res@ == ident_spans(idents@),
{
    let mut res: Vec<Span> = Vec::new();
    let mut i: usize = 0;
    while i < idents.len()
        invariant
            i <= idents@.len(),
            res@ =~= ident_spans(idents@).take(i as int),
        decreases idents@.len() - i,
    {
        res.push(idents[i].span);
        i += 1;
    }
    assert(res@ =~= ident_spans(idents@));
    res
}

spec fn ints(positions: Seq<usize>) -> Seq<int> {
    positions.map_values(|p: usize| p as int)
}

fn spans_of_values(fields: &Vec<ExprField>, base: &Option<Box<SpannedExpr>>) -> (res: (
    Vec<usize>,
    Vec<Span>,
))
    ensures
        ints(res.0@) == valued(fields@, 0),
        res.1@ == record_spans(fields@, *base),
        forall|k: int|
            0 <= k < res.0@.len() ==> #[trigger] res.0@[k] < fields@.len()
                && fields@[res.0@[k] as int].value is Some,
        res.1@.len() == res.0@.len() + if base is Some {
            1int
        } else {
            0int
        },
{
    let ghost whole = valued(fields@, 0);
    let mut indices: Vec<usize> = Vec::new();
    let mut spans: Vec<Span> = Vec::new();
    let mut i: usize = 0;
    let ghost span_at = |i: int| fields@[i].value->0.span;
    assert(ints(indices@) + whole =~= whole);
    assert(spans@ =~= ints(indices@).map_values(span_at));
    while i < fields.len()
        invariant
            i <= fields@.len(),
            span_at == (|i: int| fields@[i].value->0.span),
            ints(indices@) + valued(fields@, i as int) == whole,
            spans@ == ints(indices@).map_values(span_at),
            forall|k: int|
                0 <= k < indices@.len() ==> #[trigger] indices@[k] < fields@.len()
                    && fields@[indices@[k] as int].value is Some,
        decreases fields@.len() - i,
    {
        if let Some(expr) = &fields[i].value {
            let ghost before = ints(indices@);
            indices.push(i);
            spans.push(expr.span);
            proof {
                let more = valued(fields@, i + 1);
                assert(ints(indices@) =~= before.push(i as int));
                assert(ints(indices@) + more =~= before + (seq![i as int] + more));
                assert(spans@ =~= ints(indices@).map_values(span_at));
            }
        }
        i += 1;
    }
    assert(ints(indices@) + Seq::<int>::empty() =~= ints(indices@));
    let ghost value_spans = spans@;
    if let Some(base) = base {
        spans.push(base.span);
        assert(spans@ =~= value_spans + seq![base.span]);
    } else {
        assert(spans@ =~= value_spans + Seq::<Span>::empty());
    }
    (indices, spans)
}

proof fn aliases_before(s: Search, binds: Seq<TypeBinding>, m: nat, n: nat)
    requires
        m <= n <= binds.len(),
        see_aliases(s, binds, n) is Some,
    ensures
        see_aliases(s, binds, m) is Some,
    decreases n,
{
    if m < n {
        aliases_before(s, binds, m, (n - 1) as nat);
    }
}

proof fn patterns_before(s: Search, pos: BytePos, patterns: Seq<SpannedPattern>, m: nat, n: nat)
    requires
        m <= n <= patterns.len(),
        passed_patterns(s, pos, patterns, n) is Some,
    ensures
        passed_patterns(s, pos, patterns, m) is Some,
    decreases n,
{
    if m < n {
        patterns_before(s, pos, patterns, m, (n - 1) as nat);
    }
}

proof fn fields_before(s: Search, pos: BytePos, fields: Seq<PatternField>, m: nat, n: nat)
    requires
        m <= n <= fields.len(),
        passed_fields(s, pos, fields, n) is Some,
    ensures
        passed_fields(s, pos, fields, m) is Some,
    decreases n,
{
    if m < n {
        fields_before(s, pos, fields, m, (n - 1) as nat);
    }
}

proof fn all_before(s: Search, pos: BytePos, exprs: Seq<SpannedExpr>, m: nat, n: nat)
    requires
        m <= n <= exprs.len(),
        passed_all(s, pos, exprs, n) is Some,
    ensures
        passed_all(s, pos, exprs, m) is Some,
    decreases n,
{
    if m < n {
        all_before(s, pos, exprs, m, (n - 1) as nat);
    }
}

proof fn alternatives_before(s: Search, pos: BytePos, alts: Seq<Alternative>, m: nat, n: nat)
    requires
        m <= n <= alts.len(),
        passed_alternatives(s, pos, alts, n) is Some,
    ensures
        passed_alternatives(s, pos, alts, m) is Some,
    decreases n,
{
    if m < n {
        alternatives_before(s, pos, alts, m, (n - 1) as nat);
    }
}

proof fn values_before(s: Search, pos: BytePos, fields: Seq<ExprField>, m: nat, n: nat)
    requires
        m <= n <= fields.len(),
        passed_values(s, pos, fields, n) is Some,
    ensures
        passed_values(s, pos, fields, m) is Some,
    decreases n,
{
    if m < n {
        values_before(s, pos, fields, m, (n - 1) as nat);
    }
}

impl<'a> FindVisitor<'a> {
    fn find(&mut self, found: Option<Match<'a>>)
        ensures
            final(self).pos == old(self).pos,
            final(self)@ == old(self)@.find(spot_of(found)),
    {
        self.found = Some(found);
    }

    fn enclose(&mut self, spot: Match<'a>)
        ensures
            final(self).pos == old(self).pos,
            final(self)@ == old(self)@.enclose(spot@),
    {
        self.enclosing_matches.push(spot);
        assert(matches_view(self.enclosing_matches@) =~= old(self)@.enclosing.push(spot@));
    }

    fn see(&mut self, seen: InScope<'a>)
        ensures
            final(self).pos == old(self).pos,
            final(self)@ == old(self)@.see(seen@),
    {
        self.seen.push(seen);
        assert(scope_view(self.seen@) =~= old(self)@.seen.push(seen@));
    }

    fn see_params(&mut self, params: &'a Vec<Generic>)
        ensures
            final(self).pos == old(self).pos,
            final(self)@ == see_params(old(self)@, generics_view(params@), params@.len()),
    {
        let ghost all = generics_view(params@);
        let mut i: usize = 0;
        while i < params.len()
            invariant
                i <= params@.len(),
                all == generics_view(params@),
                self.pos == old(self).pos,
                self@ == see_params(old(self)@, all, i as nat),
            decreases params@.len() - i,
        {
            assert(all[i as int] == params@[i as int]@);
            self.see(InScope::TypeIdent(&params[i]));
            i += 1;
        }
    }

    fn see_idents(&mut self, idents: &'a Vec<SpannedIdent>)
        ensures
            final(self).pos == old(self).pos,
            final(self)@ == see_idents(old(self)@, idents@, idents@.len()),
    {
        let mut i: usize = 0;
        while i < idents.len()
            invariant
                i <= idents@.len(),
                self.pos == old(self).pos,
                self@ == see_idents(old(self)@, idents@, i as nat),
            decreases idents@.len() - i,
        {
            self.see(InScope::Ident(&idents[i].value));
            i += 1;
        }
    }

    fn see_bindings(&mut self, binds: &'a Vec<ValueBinding>)
        ensures
            final(self).pos == old(self).pos,
            final(self)@ == see_bindings(old(self)@, binds@, binds@.len()),
    {
        let mut i: usize = 0;
        while i < binds.len()
            invariant
                i <= binds@.len(),
                self.pos == old(self).pos,
                self@ == see_bindings(old(self)@, binds@, i as nat),
            decreases binds@.len() - i,
        {
            self.see(InScope::Pattern(&binds[i].name));
            i += 1;
        }
    }

    fn see_aliases(&mut self, binds: &'a Vec<TypeBinding>)
        requires
            see_aliases(old(self)@, binds@, binds@.len()) is Some,
        ensures
            final(self).pos == old(self).pos,
            see_aliases(old(self)@, binds@, binds@.len()) == Some(final(self)@),
    {
        let ghost start = self@;
        let mut i: usize = 0;
        while i < binds.len()
            invariant
                i <= binds@.len(),
                self.pos == old(self).pos,
                see_aliases(start, binds@, binds@.len()) is Some,
                see_aliases(start, binds@, i as nat) == Some(self@),
            decreases binds@.len() - i,
        {
            proof {
                aliases_before(start, binds@, (i + 1) as nat, binds@.len());
            }
            if let Some(alias) = &binds[i].finalized_alias {
                self.see(InScope::Alias(alias.data()));
            }
            i += 1;
        }
    }

    fn visit_ast_type(&mut self, typ: &'a AstType)
        ensures
            final(self).pos == old(self).pos,
            final(self)@ == searched_type(old(self)@, old(self).pos, *typ),
        decreases typ, 1nat,
    {
        match typ.typ.as_type() {
            // ExtendRow do not have spans set properly so recurse unconditionally
            Type::ExtendRow { .. } => {},
            _ => {
                if typ.span.containment(self.pos) != Containment::Equal {
                    return ;
                }
            },
        }
        match typ.typ.as_type() {
            Type::Ident(id) => {
                self.find(Some(Match::Type(typ.span, id, Kind::hole())));
            },
            Type::Generic(gen) => {
                self.find(Some(Match::Type(typ.span, &gen.id, gen.kind.clone())));
            },
            Type::Alias(alias) => {
                let kind = typ.typ.kind(&KindCache::new());
                self.find(Some(Match::Type(typ.span, alias.data().name(), kind)));
            },
            Type::Forall(params, _) => {
                assert(generics_view(params@).len() == params@.len());
                self.see_params(params);
                self.visit_ast_types(&typ.parts);
            },
            _ => {
                self.visit_ast_types(&typ.parts);
            },
        }
    }

    fn visit_ast_types(&mut self, types: &'a Vec<AstType>)
        ensures
            final(self).pos == old(self).pos,
            final(self)@ == searched_types(old(self)@, old(self).pos, types@, types@.len()),
        decreases types@, 0nat,
    {
        let mut i: usize = 0;
        while i < types.len()
            invariant
                i <= types@.len(),
                self.pos == old(self).pos,
                self@ == searched_types(old(self)@, old(self).pos, types@, i as nat),
            decreases types@.len() - i,
        {
            assert(decreases_to!(types@ => types@[i as int]));
            self.visit_ast_type(&types[i]);
            i += 1;
        }
    }

    #[verifier::rlimit(30)]
    fn visit_pattern(&mut self, current: &'a SpannedPattern)
        requires
            searched_pattern(old(self)@, old(self).pos, *current) is Some,
        ensures
            final(self).pos == old(self).pos,
            searched_pattern(old(self)@, old(self).pos, *current) == Some(final(self)@),
        decreases current, 1nat,
    {
        let pos = self.pos;
        let at = current.span.containment(pos) == Containment::Equal;
        if at {
            self.enclose(Match::Pattern(current));
        }
        match &current.value {
            Pattern::As(_, pat) => {
                self.visit_pattern(pat);
            },
            Pattern::Constructor(id, args) => {
                let len: usize = id.name.as_str().len();
                let end: u32 = current.span.start.0 + (len as u32);
                let id_span = Span::new(current.span.start, BytePos(end));
                if id_span.containment(pos) == Containment::Equal {
                    self.find(Some(Match::Pattern(current)));
                    return ;
                }
                let spans = spans_of_patterns(args);
                match select_spanned(&spans, pos).1 {
                    Some(i) => {
                        assert(decreases_to!(args@ => args@[i as int]));
                        self.visit_pattern(&args[i]);
                    },
                    None => {
                        self.find(None);
                    },
                }
            },
            Pattern::Record { typ, types, fields } => {
                let (all, spans) = order_entries(types, fields);
                let (on_whitespace, selected) = select_spanned(&spans, pos);
                if on_whitespace {
                    self.find(None);
                } else {
                    match selected {
                        Some(k) => {
                            let ghost entry = entries(types@, fields@, 0, 0)[k as int];
                            assert(entries_view(all@)[k as int] == all@[k as int]@);
                            assert(entry == all@[k as int]@);
                            assert(searched_pattern(old(self)@, pos, *current) == searched_entry(
                                self@,
                                pos,
                                typ@,
                                types@,
                                fields@,
                                entry,
                            ));
                            match all[k] {
                                EntryIndex::Type(i) => {
                                    let name = &types[i].name;
                                    if name.span.containment(pos) == Containment::Equal {
                                        let field_type = find_type_field(typ, &name.value);
                                        self.find(
                                            Some(Match::Ident(name.span, &name.value, field_type)),
                                        );
                                    } else {
                                        self.find(None);
                                    }
                                },
                                EntryIndex::Field(j) => {
                                    assert(decreases_to!(fields@ => fields@[j as int]));
                                    let name = &fields[j].name;
                                    match name.span.containment(pos) {
                                        Containment::Equal => {
                                            let field_type = find_field_type(typ, &name.value);
                                            self.find(
                                                Some(
                                                    Match::Ident(
                                                        name.span,
                                                        &name.value,
                                                        field_type,
                                                    ),
                                                ),
                                            );
                                        },
                                        Containment::Greater => match &fields[j].value {
                                            Some(pattern) => {
                                                self.visit_pattern(pattern);
                                            },
                                            None => {
                                                self.find(None);
                                            },
                                        },
                                        Containment::Less => {
                                            self.find(None);
                                        },
                                    }
                                },
                            }
                        },
                        None => {
                            self.find(None);
                        },
                    }
                }
            },
            Pattern::Tuple { typ: _, elems } => {
                let spans = spans_of_patterns(elems);
                if let Some(i) = select_spanned(&spans, pos).1 {
                    assert(decreases_to!(elems@ => elems@[i as int]));
                    self.visit_pattern(&elems[i]);
                }
            },
            Pattern::Ident(_) => {
                if at {
                    self.find(Some(Match::Pattern(current)));
                } else {
                    self.find(None);
                }
            },
            Pattern::Error => {
                if at {
                    self.find(Some(Match::Pattern(current)));
                } else {
                    self.find(None);
                }
            },
        }
    }
}

impl<'a> FindVisitor<'a> {
    fn pass_pattern(&mut self, pattern: &'a SpannedPattern)
        requires
            passed_pattern(old(self)@, old(self).pos, *pattern) is Some,
        ensures
            final(self).pos == old(self).pos,
            passed_pattern(old(self)@, old(self).pos, *pattern) == Some(final(self)@),
        decreases pattern, 2nat,
    {
        if pattern.span.expansion_id == NO_EXPANSION {
            self.visit_pattern(pattern);
        } else {
            // Add variables into scope
            self.see(InScope::Pattern(pattern));
            match &pattern.value {
                Pattern::As(_, inner) => {
                    self.pass_pattern(inner);
                },
                Pattern::Constructor(_, args) => {
                    self.pass_patterns(args);
                },
                Pattern::Record { typ: _, types: _, fields } => {
                    let ghost start = self@;
                    let ghost pos = self.pos;
                    let mut i: usize = 0;
                    while i < fields.len()
                        invariant
                            i <= fields@.len(),
                            decreases_to!(pattern => fields@),
                            self.pos == pos,
                            passed_fields(start, pos, fields@, fields@.len()) is Some,
                            passed_fields(start, pos, fields@, i as nat) == Some(self@),
                        decreases fields@.len() - i,
                    {
                        proof {
                            fields_before(start, pos, fields@, (i + 1) as nat, fields@.len());
                            assert(decreases_to!(fields@ => fields@[i as int]));
                        }
                        if let Some(inner) = &fields[i].value {
                            self.pass_pattern(inner);
                        }
                        i += 1;
                    }
                },
                Pattern::Tuple { typ: _, elems } => {
                    self.pass_patterns(elems);
                },
                _ => {},
            }
        }
    }

    fn pass_patterns(&mut self, patterns: &'a Vec<SpannedPattern>)
        requires
            passed_patterns(old(self)@, old(self).pos, patterns@, patterns@.len()) is Some,
        ensures
            final(self).pos == old(self).pos,
            passed_patterns(old(self)@, old(self).pos, patterns@, patterns@.len()) == Some(
                final(self)@,
            ),
        decreases patterns@, 0nat,
    {
        let ghost start = self@;
        let ghost pos = self.pos;
        let mut i: usize = 0;
        while i < patterns.len()
            invariant
                i <= patterns@.len(),
                self.pos == pos,
                passed_patterns(start, pos, patterns@, patterns@.len()) is Some,
                passed_patterns(start, pos, patterns@, i as nat) == Some(self@),
            decreases patterns@.len() - i,
        {
            proof {
                patterns_before(start, pos, patterns@, (i + 1) as nat, patterns@.len());
                assert(decreases_to!(patterns@ => patterns@[i as int]));
            }
            self.pass_pattern(&patterns[i]);
            i += 1;
        }
    }

    fn pass_expr(&mut self, expr: &'a SpannedExpr)
        requires
            passed(old(self)@, old(self).pos, *expr) is Some,
        ensures
            final(self).pos == old(self).pos,
            passed(old(self)@, old(self).pos, *expr) == Some(final(self)@),
        decreases expr, 3nat,
    {
        if self.found.is_none() {
            if expr.span.expansion_id == NO_EXPANSION {
                self.visit_expr(expr);
            } else {
                self.pass_inside(expr);
            }
        }
    }

    fn pass_all(&mut self, exprs: &'a Vec<SpannedExpr>)
        requires
            passed_all(old(self)@, old(self).pos, exprs@, exprs@.len()) is Some,
        ensures
            final(self).pos == old(self).pos,
            passed_all(old(self)@, old(self).pos, exprs@, exprs@.len()) == Some(final(self)@),
        decreases exprs@, 0nat,
    {
        let ghost start = self@;
        let ghost pos = self.pos;
        let mut i: usize = 0;
        while i < exprs.len()
            invariant
                i <= exprs@.len(),
                self.pos == pos,
                passed_all(start, pos, exprs@, exprs@.len()) is Some,
                passed_all(start, pos, exprs@, i as nat) == Some(self@),
            decreases exprs@.len() - i,
        {
            proof {
                all_before(start, pos, exprs@, (i + 1) as nat, exprs@.len());
                assert(decreases_to!(exprs@ => exprs@[i as int]));
            }
            self.pass_expr(&exprs[i]);
            i += 1;
        }
    }

    #[verifier::rlimit(30)]
    fn pass_inside(&mut self, expr: &'a SpannedExpr)
        requires
            passed_inside(old(self)@, old(self).pos, *expr) is Some,
        ensures
            final(self).pos == old(self).pos,
            passed_inside(old(self)@, old(self).pos, *expr) == Some(final(self)@),
        decreases expr, 1nat,
    {
        match &expr.value {
            Expr::TypeBindings(binds, body) => {
                self.see_aliases(binds);
                self.visit_expr(body);
            },
            Expr::LetBindings(binds, body) => {
                self.see_bindings(binds);
                self.visit_expr(body);
            },
            Expr::App(func, args) => {
                self.pass_expr(func);
                self.pass_all(args);
            },
            Expr::IfElse(pred, if_true, if_false) => {
                self.pass_expr(pred);
                self.pass_expr(if_true);
                self.pass_expr(if_false);
            },
            Expr::Match(value, alts) => {
                self.pass_expr(value);
                let ghost start = self@;
                let ghost pos = self.pos;
                let mut i: usize = 0;
                while i < alts.len()
                    invariant
                        i <= alts@.len(),
                        decreases_to!(expr => alts@),
                        self.pos == pos,
                        passed_alternatives(start, pos, alts@, alts@.len()) is Some,
                        passed_alternatives(start, pos, alts@, i as nat) == Some(self@),
                    decreases alts@.len() - i,
                {
                    proof {
                        alternatives_before(start, pos, alts@, (i + 1) as nat, alts@.len());
                        assert(decreases_to!(alts@ => alts@[i as int]));
                    }
                    self.pass_pattern(&alts[i].pattern);
                    self.pass_expr(&alts[i].expr);
                    i += 1;
                }
            },
            Expr::Infix(l, _, r) => {
                self.pass_expr(l);
                self.pass_expr(r);
            },
            Expr::Projection(value, _, _) => {
                self.pass_expr(value);
            },
            Expr::Array(_, exprs) => {
                self.pass_all(exprs);
            },
            Expr::Record { typ: _, types: _, exprs, base } => {
                let ghost start = self@;
                let ghost pos = self.pos;
                let mut i: usize = 0;
                while i < exprs.len()
                    invariant
                        i <= exprs@.len(),
                        decreases_to!(expr => exprs@),
                        self.pos == pos,
                        passed_values(start, pos, exprs@, exprs@.len()) is Some,
                        passed_values(start, pos, exprs@, i as nat) == Some(self@),
                    decreases exprs@.len() - i,
                {
                    proof {
                        values_before(start, pos, exprs@, (i + 1) as nat, exprs@.len());
                        assert(decreases_to!(exprs@ => exprs@[i as int]));
                    }
                    if let Some(value) = &exprs[i].value {
                        self.pass_expr(value);
                    }
                    i += 1;
                }
                if let Some(base) = base {
                    self.pass_expr(base);
                }
            },
            Expr::Lambda(lambda) => {
                self.pass_expr(&lambda.body);
            },
            Expr::Tuple { typ: _, elems } => {
                self.pass_all(elems);
            },
            Expr::Block(exprs) => {
                self.pass_all(exprs);
            },
            Expr::Do(do_expr) => {
                self.pass_expr(&do_expr.bound);
                self.pass_expr(&do_expr.body);
            },
            Expr::Ident(_) => {},
            Expr::Literal(_) => {},
            Expr::Error => {},
        }
    }

    fn visit_one(&mut self, exprs: &'a Vec<SpannedExpr>)
        requires
            searched_one(old(self)@, old(self).pos, exprs@) is Some,
        ensures
            final(self).pos == old(self).pos,
            searched_one(old(self)@, old(self).pos, exprs@) == Some(final(self)@),
        decreases exprs@, 0nat,
    {
        let spans = spans_of_exprs(exprs);
        if let Some(i) = select_spanned(&spans, self.pos).1 {
            assert(decreases_to!(exprs@ => exprs@[i as int]));
            self.visit_expr(&exprs[i]);
        }
    }

    fn visit_alternative(&mut self, alt: &'a Alternative)
        requires
            searched_alternative(old(self)@, old(self).pos, *alt) is Some,
        ensures
            final(self).pos == old(self).pos,
            searched_alternative(old(self)@, old(self).pos, *alt) == Some(final(self)@),
        decreases alt, 0nat,
    {
        self.see(InScope::Pattern(&alt.pattern));
        let spans = vec![alt.pattern.span, alt.expr.span];
        assert(spans@ =~= seq![alt.pattern.span, alt.expr.span]);
        match select_spanned(&spans, self.pos).1 {
            Some(0) => {
                self.visit_pattern(&alt.pattern);
            },
            _ => {
                self.visit_expr(&alt.expr);
            },
        }
    }

    fn visit_binding(&mut self, bind: &'a ValueBinding)
        requires
            searched_binding(old(self)@, old(self).pos, *bind) is Some,
        ensures
            final(self).pos == old(self).pos,
            searched_binding(old(self)@, old(self).pos, *bind) == Some(final(self)@),
        decreases bind, 0nat,
    {
        self.see_idents(&bind.args);
        let mut spans = vec![bind.name.span];
        let arg_spans = spans_of_idents(&bind.args);
        let mut j: usize = 0;
        let ghost args = ident_spans(bind.args@);
        while j < arg_spans.len()
            invariant
                j <= arg_spans@.len(),
                arg_spans@ == args,
                spans@ =~= seq![bind.name.span] + args.take(j as int),
            decreases arg_spans@.len() - j,
        {
            spans.push(arg_spans[j]);
            j += 1;
        }
        if let Some(typ) = &bind.typ {
            spans.push(typ.span);
        }
        spans.push(bind.expr.span);
        assert(args.take(j as int) =~= args);
        assert(spans@ =~= binding_part_spans(*bind));
        let n: usize = bind.args.len();
        match select_spanned(&spans, self.pos).1 {
            Some(k) => {
                if k == 0 {
                    self.visit_pattern(&bind.name);
                } else if k <= n {
                    let arg = &bind.args[k - 1];
                    self.find(Some(Match::Ident(arg.span, &arg.value.name, &arg.value.typ)));
                } else {
                    match &bind.typ {
                        Some(typ) => {
                            if k - 1 == n {
                                self.visit_ast_type(typ);
                            } else {
                                self.visit_expr(&bind.expr);
                            }
                        },
                        None => {
                            self.visit_expr(&bind.expr);
                        },
                    }
                }
            },
            None => {},
        }
    }

    fn visit_type_binding(&mut self, bind: &'a TypeBinding)
        ensures
            final(self).pos == old(self).pos,
            final(self)@ == searched_type_binding(old(self)@, old(self).pos, *bind),
    {
        let data = &bind.alias.value;
        if bind.name.span.containment(self.pos) == Containment::Equal {
            let kind = data.unresolved_type().kind(&KindCache::new());
            self.find(Some(Match::Type(bind.name.span, data.name(), kind)));
        } else {
            let params = data.params();
            assert(generics_view(params@).len() == params@.len());
            self.see_params(params);
            self.visit_ast_type(&bind.aliased_type);
        }
    }

    fn visit_record(&mut self, current: &'a SpannedExpr)
        requires
            searched_record(old(self)@, old(self).pos, *current) is Some,
        ensures
            final(self).pos == old(self).pos,
            searched_record(old(self)@, old(self).pos, *current) == Some(final(self)@),
        decreases current, 1nat,
    {
        let pos = self.pos;
        if let Expr::Record { typ: _, types: _, exprs, base } = &current.value {
            let (values, spans) = spans_of_values(exprs, base);
            if let Some(k) = select_spanned(&spans, pos).1 {
                if k < values.len() {
                    let i: usize = values[k];
                    assert(ints(values@)[k as int] == i as int);
                    assert(valued(exprs@, 0)[k as int] == i as int);
                    assert(searched_record(self@, pos, *current) == searched_value(
                        self@,
                        pos,
                        exprs@,
                        i as int,
                    ));
                    assert(decreases_to!(exprs@ => exprs@[i as int]));
                    if let Some(value) = &exprs[i].value {
                        self.visit_expr(value);
                    }
                } else {
                    if let Some(base) = base {
                        self.visit_expr(base);
                    }
                }
            }
        }
    }

    #[verifier::rlimit(30)]
    fn visit_expr(&mut self, current: &'a SpannedExpr)
        requires
            searched(old(self)@, old(self).pos, *current) is Some,
        ensures
            final(self).pos == old(self).pos,
            searched(old(self)@, old(self).pos, *current) == Some(final(self)@),
        decreases current, 2nat,
    {
        // When inside a macro expanded expression we do a exhaustive search for an unexpanded
        // expression
        if current.span.expansion_id != NO_EXPANSION {
            if self.found.is_none() {
                self.pass_inside(current);
            }
            return ;
        }
        self.enclose(Match::Expr(current));
        let pos = self.pos;
        match &current.value {
            Expr::Ident(_) | Expr::Literal(_) => {
                if current.span.containment(pos) == Containment::Equal {
                    self.find(Some(Match::Expr(current)));
                } else {
                    self.find(None);
                }
            },
            Expr::App(func, args) => {
                let mut spans = vec![func.span];
                let mut more = spans_of_exprs(args);
                spans.append(&mut more);
                assert(spans@ =~= seq![func.span] + expr_spans(args@));
                if let Some(i) = select_spanned(&spans, pos).1 {
                    if i == 0 {
                        self.visit_expr(func);
                    } else {
                        assert(decreases_to!(args@ => args@[i - 1]));
                        self.visit_expr(&args[i - 1]);
                    }
                }
            },
            Expr::IfElse(pred, if_true, if_false) => {
                let spans = vec![pred.span, if_true.span, if_false.span];
                assert(spans@ =~= seq![pred.span, if_true.span, if_false.span]);
                match select_spanned(&spans, pos).1 {
                    Some(0) => {
                        self.visit_expr(pred);
                    },
                    Some(1) => {
                        self.visit_expr(if_true);
                    },
                    _ => {
                        self.visit_expr(if_false);
                    },
                }
            },
            Expr::Match(value, alts) => {
                let mut spans = vec![value.span];
                let mut j: usize = 0;
                let ghost alt_spans = alternative_spans(alts@);
                while j < alts.len()
                    invariant
                        j <= alts@.len(),
                        alt_spans == alternative_spans(alts@),
                        spans@ =~= seq![value.span] + alt_spans.take(j as int),
                    decreases alts@.len() - j,
                {
                    spans.push(Span::new(alts[j].pattern.span.start, alts[j].expr.span.end));
                    j += 1;
                }
                assert(alt_spans.take(j as int) =~= alt_spans);
                if let Some(i) = select_spanned(&spans, pos).1 {
                    if i == 0 {
                        self.enclose(Match::Expr(value));
                        self.visit_expr(value);
                    } else {
                        assert(decreases_to!(alts@ => alts@[i - 1]));
                        self.visit_alternative(&alts[i - 1]);
                    }
                }
            },
            Expr::Infix(l, op, r) => match (l.span.containment(pos), r.span.containment(pos)) {
                (Containment::Greater, Containment::Less) => {
                    self.find(Some(Match::Ident(op.span, &op.value.name, &op.value.typ)));
                },
                (_, Containment::Greater) => {
                    self.visit_expr(r);
                },
                (_, Containment::Equal) => {
                    self.visit_expr(r);
                },
                _ => {
                    self.visit_expr(l);
                },
            },
            Expr::LetBindings(binds, body) => {
                self.see_bindings(binds);
                let mut spans: Vec<Span> = Vec::new();
                let mut j: usize = 0;
                let ghost all = binding_spans(binds@);
                while j < binds.len()
                    invariant
                        j <= binds@.len(),
                        all == binding_spans(binds@),
                        spans@ =~= all.take(j as int),
                    decreases binds@.len() - j,
                {
                    spans.push(Span::new(binds[j].name.span.start, binds[j].expr.span.end));
                    j += 1;
                }
                assert(spans@ =~= all);
                match select_spanned(&spans, pos) {
                    (false, Some(i)) => {
                        assert(decreases_to!(binds@ => binds@[i as int]));
                        self.visit_binding(&binds[i]);
                    },
                    _ => {
                        self.visit_expr(body);
                    },
                }
            },
            Expr::TypeBindings(binds, body) => {
                self.see_aliases(binds);
                let mut spans: Vec<Span> = Vec::new();
                let mut j: usize = 0;
                let ghost all = type_binding_spans(binds@);
                while j < binds.len()
                    invariant
                        j <= binds@.len(),
                        all == type_binding_spans(binds@),
                        spans@ =~= all.take(j as int),
                    decreases binds@.len() - j,
                {
                    spans.push(Span::new(binds[j].name.span.start, binds[j].alias.span.end));
                    j += 1;
                }
                spans.push(body.span);
                assert(spans@ =~= all + seq![body.span]);
                if let Some(i) = select_spanned(&spans, pos).1 {
                    if i < binds.len() {
                        self.visit_type_binding(&binds[i]);
                    } else {
                        self.visit_expr(body);
                    }
                }
            },
            Expr::Projection(value, id, typ) => {
                if value.span.containment(pos) != Containment::Greater {
                    self.visit_expr(value);
                } else {
                    self.enclose(Match::Expr(current));
                    self.find(Some(Match::Ident(current.span, id, typ)));
                }
            },
            Expr::Array(_, exprs) => {
                self.visit_one(exprs);
            },
            Expr::Record { .. } => {
                self.visit_record(current);
            },
            Expr::Lambda(lambda) => {
                self.see_idents(&lambda.args);
                let spans = spans_of_idents(&lambda.args);
                match select_spanned(&spans, pos) {
                    (false, Some(i)) => {
                        let arg = &lambda.args[i];
                        self.find(Some(Match::Ident(arg.span, &arg.value.name, &arg.value.typ)));
                    },
                    _ => {
                        self.visit_expr(&lambda.body);
                    },
                }
            },
            Expr::Tuple { typ: _, elems } => {
                if elems.len() == 0 {
                    self.find(Some(Match::Expr(current)));
                } else {
                    self.visit_one(elems);
                }
            },
            Expr::Block(exprs) => {
                if exprs.len() == 0 {
                    self.find(Some(Match::Expr(current)));
                } else {
                    self.visit_one(exprs);
                }
            },
            Expr::Do(do_expr) => {
                let spans = vec![do_expr.id.span, do_expr.bound.span, do_expr.body.span];
                assert(spans@ =~= seq![do_expr.id.span, do_expr.bound.span, do_expr.body.span]);
                match select_spanned(&spans, pos).1 {
                    Some(0) => {
                        let id = &do_expr.id;
                        self.find(Some(Match::Ident(id.span, &id.value.name, &id.value.typ)));
                    },
                    Some(1) => {
                        self.visit_expr(&do_expr.bound);
                    },
                    _ => {
                        self.visit_expr(&do_expr.body);
                    },
                }
            },
            Expr::Error => {},
        }
    }
}

/// What was found at a position.
pub struct Found<'a> {
    pub match_: Option<Match<'a>>,
    /// What encloses the position, the outermost first.
    pub enclosing_matches: Vec<Match<'a>>,
    /// What is in scope at the position.
    pub in_scope: Vec<InScope<'a>>,
}

/// Finds what stands at `pos`.
pub fn complete_at<'a>(expr: &'a SpannedExpr, pos: BytePos) -> (res: Result<Found<'a>, ()>)
    requires
        completed(*expr, pos) is Some,
    ensures
        match res {
            Ok(found) => completed(*expr, pos) == Some(
                Search {
                    found: Some(spot_of(found.match_)),
                    enclosing: matches_view(found.enclosing_matches@),
                    seen: scope_view(found.in_scope@),
                },
            ),
            Err(()) => completed(*expr, pos)->0.found is None,
        },
{
    let mut visitor = FindVisitor {
        pos,
        found: None,
        enclosing_matches: Vec::new(),
        seen: Vec::new(),
    };
    assert(matches_view(visitor.enclosing_matches@) =~= Seq::<Spot>::empty());
    assert(scope_view(visitor.seen@) =~= Seq::<Seen>::empty());
    visitor.visit_expr(expr);
    match visitor.found {
        Some(match_) => Ok(
            Found {
                match_,
                enclosing_matches: visitor.enclosing_matches,
                in_scope: visitor.seen,
            },
        ),
        None => Err(()),
    }
}

} // verus!
