//! The types that are found for identifiers, in their places.

use vstd::prelude::*;
use crate::ast::{
    Alternative, Expr, ExprField, Pattern, PatternField, SpannedExpr, SpannedIdent, SpannedPattern,
    TypedIdent, ValueBinding,
};
use crate::macros::{field_values, parts, parts_decrease};
use crate::symbol::Symbol;
use crate::typecheck::infer::{all_functions, are_functions};
use crate::typecheck::table::types_table;
use crate::types::model::Ty;
use crate::types::ArcType;

verus! {

/// The places that hold the type of an identifier, in the order in which identifiers are checked, with
/// the types that they hold. A field that stands for its own name is checked and has no place.
pub type Places = Seq<Option<Place>>;

/// A place that holds the type of an identifier, and its name where the name is looked up or given.
pub struct Place {
    pub name: Option<Seq<char>>,
    pub typ: Ty,
}

/// A place that holds the type `typ` alone.
pub open spec fn typed(typ: Ty) -> Option<Place> {
    Some(Place { name: None, typ })
}

/// The place in a pattern inside of another.
pub open spec fn inner_place(pattern: SpannedPattern) -> Option<Place> {
    match pattern.value {
        Pattern::Ident(id) => typed(id.typ@),
        _ => None,
    }
}

pub open spec fn field_place(field: PatternField) -> Option<Place> {
    match field.value {
        Some(pattern) => inner_place(pattern),
        None => None,
    }
}

pub open spec fn inner_places(patterns: Seq<SpannedPattern>) -> Places {
    patterns.map_values(|pattern: SpannedPattern| inner_place(pattern))
}

pub open spec fn field_places(fields: Seq<PatternField>) -> Places {
    fields.map_values(|field: PatternField| field_place(field))
}

pub open spec fn pattern_places(pattern: SpannedPattern) -> Places {
    match pattern.value {
        Pattern::Ident(id) => seq![typed(id.typ@)],
        Pattern::Constructor(_, args) => inner_places(args@),
        Pattern::Record { typ, types: _, fields } => seq![typed(typ@)] + field_places(fields@),
        _ => Seq::empty(),
    }
}

pub open spec fn ident_places(idents: Seq<SpannedIdent>) -> Places {
    idents.map_values(|ident: SpannedIdent| typed(ident.value.typ@))
}

/// The places in `expr`.
pub open spec fn places(expr: SpannedExpr) -> Places
    decreases expr, 0nat,
{
    match expr.value {
        Expr::Ident(id) => seq![Some(Place { name: Some(id.name@), typ: id.typ@ })],
        Expr::App(func, args) => places(*func) + all_places(args@, args@.len()),
        Expr::Lambda(lambda) => ident_places(lambda.args@) + places(*lambda.body) + seq![
            Some(Place { name: Some(lambda.id.name@), typ: lambda.id.typ@ }),
        ],
        Expr::IfElse(pred, yes, no) => places(*pred) + places(*yes) + places(*no),
        Expr::Match(value, alts) => places(*value) + alt_places(alts@, alts@.len()),
        Expr::Infix(lhs, op, rhs) => places(*lhs) + places(*rhs) + seq![typed(op.value.typ@)],
        Expr::Projection(value, _, typ) => places(*value) + seq![typed(typ@)],
        Expr::Array(typ, elems) => all_places(elems@, elems@.len()) + seq![typed(typ@)],
        Expr::Block(exprs) => all_places(exprs@, exprs@.len()),
        Expr::Record { typ, types: _, exprs, base: _ } => value_places(exprs@, exprs@.len()) + seq![
            typed(typ@),
        ],
        Expr::LetBindings(bindings, body) => if all_functions(bindings@) {
            name_places(bindings@, bindings@.len()) + binding_places(
                bindings@,
                false,
                bindings@.len(),
            ) + places(*body)
        } else {
            binding_places(bindings@, true, bindings@.len()) + places(*body)
        },
        Expr::TypeBindings(_, body) => places(*body),
        _ => Seq::empty(),
    }
}

/// The places in the first `n` of `exprs`.
pub open spec fn all_places(exprs: Seq<SpannedExpr>, n: nat) -> Places
    decreases exprs, n,
{
    if n == 0 || n > exprs.len() {
        Seq::empty()
    } else {
        all_places(exprs, (n - 1) as nat) + places(exprs[n - 1])
    }
}

/// The places in the first `n` of `alts`.
pub open spec fn alt_places(alts: Seq<Alternative>, n: nat) -> Places
    decreases alts, n,
{
    if n == 0 || n > alts.len() {
        Seq::empty()
    } else {
        alt_places(alts, (n - 1) as nat) + pattern_places(alts[n - 1].pattern) + places(
            alts[n - 1].expr,
        )
    }
}

/// The places in the values of the first `n` of `fields`. A field that has the value of its name is
/// checked and has no place.
pub open spec fn value_places(fields: Seq<ExprField>, n: nat) -> Places
    decreases fields, n,
{
    if n == 0 || n > fields.len() {
        Seq::empty()
    } else {
        value_places(fields, (n - 1) as nat) + match fields[n - 1].value {
            Some(value) => places(value),
            None => seq![None],
        }
    }
}

/// The places in the names of the first `n` of `bindings`.
pub open spec fn name_places(bindings: Seq<ValueBinding>, n: nat) -> Places
    decreases n,
{
    if n == 0 || n > bindings.len() {
        Seq::empty()
    } else {
        name_places(bindings, (n - 1) as nat) + pattern_places(bindings[n - 1].name)
    }
}

/// The places in the first `n` of `bindings`, behind each those in its name if it is bound `last`.
pub open spec fn binding_places(bindings: Seq<ValueBinding>, last: bool, n: nat) -> Places
    decreases bindings, n,
{
    if n == 0 || n > bindings.len() {
        Seq::empty()
    } else {
        binding_places(bindings, last, (n - 1) as nat) + ident_places(bindings[n - 1].args@)
            + places(bindings[n - 1].expr) + if last {
            pattern_places(bindings[n - 1].name)
        } else {
            Seq::empty()
        }
    }
}

/// `before` with the types, and the names, from `at` on in their places, as far as there are any.
pub open spec fn refilled(before: Places, notes: Seq<(Seq<char>, Ty)>, at: int) -> Places {
    Seq::new(
        before.len(),
        |i: int|
            if before[i] is Some && at + i < notes.len() {
                let note = notes[at + i];
                Some(
                    Place {
                        name: if (before[i]->0).name is Some {
                            Some(note.0)
                        } else {
                            None
                        },
                        typ: note.1,
                    },
                )
            } else {
                before[i]
            },
    )
}

/// The places `before` hold `after`, and the types up to `next` are used.
spec fn filled(before: Places, after: Places, types: Seq<(Seq<char>, Ty)>, at: int, next: int) -> bool {
    &&& 0 <= at <= types.len()
    &&& after == refilled(before, types, at)
    &&& next == if at + before.len() < types.len() {
        at + before.len()
    } else {
        types.len() as int
    }
}

proof fn none_filled(types: Seq<(Seq<char>, Ty)>, at: int)
    requires
        0 <= at <= types.len(),
    ensures
        filled(Seq::empty(), Seq::empty(), types, at, at),
{
    assert(refilled(Seq::empty(), types, at) =~= Seq::<Option<Place>>::empty());
}

proof fn both_filled(
    before: Places,
    after: Places,
    more_before: Places,
    more_after: Places,
    types: Seq<(Seq<char>, Ty)>,
    at: int,
    mid: int,
    next: int,
)
    requires
        filled(before, after, types, at, mid),
        filled(more_before, more_after, types, mid, next),
    ensures
        filled(before + more_before, after + more_after, types, at, next),
{
    assert(refilled(before + more_before, types, at) =~= after + more_after);
}

/// `a` and `b` differ in the types of identifiers at most.
pub open spec fn same_idents(a: Seq<SpannedIdent>, b: Seq<SpannedIdent>) -> bool {
    &&& a.len() == b.len()
    &&& forall|i: int|
        0 <= i < a.len() ==> (#[trigger] b[i]).span == a[i].span && b[i].value.name
            == a[i].value.name
}

/// `a` and `b` differ in the type of an identifier at most.
pub open spec fn same_inner(a: SpannedPattern, b: SpannedPattern) -> bool {
    match (a.value, b.value) {
        (Pattern::Ident(x), Pattern::Ident(y)) => a.span == b.span && x.name == y.name,
        _ => a == b,
    }
}

/// `a` and `b` differ in the types of identifiers at most.
pub open spec fn same_pattern(a: SpannedPattern, b: SpannedPattern) -> bool {
    match (a.value, b.value) {
        (Pattern::Ident(x), Pattern::Ident(y)) => a.span == b.span && x.name == y.name,
        (Pattern::Constructor(x, p), Pattern::Constructor(y, q)) => a.span == b.span && x == y
            && same_inners(p@, q@),
        (
            Pattern::Record { typ: _, types: t, fields: p },
            Pattern::Record { typ: _, types: u, fields: q },
        ) => a.span == b.span && t == u && same_pattern_fields(p@, q@),
        _ => a == b,
    }
}

pub open spec fn same_inners(a: Seq<SpannedPattern>, b: Seq<SpannedPattern>) -> bool {
    a.len() == b.len() && forall|i: int| 0 <= i < a.len() ==> same_inner(a[i], #[trigger] b[i])
}

pub open spec fn same_pattern_fields(a: Seq<PatternField>, b: Seq<PatternField>) -> bool {
    &&& a.len() == b.len()
    &&& forall|i: int|
        0 <= i < a.len() ==> (#[trigger] b[i]).name == a[i].name && match (a[i].value, b[i].value) {
            (Some(p), Some(q)) => same_inner(p, q),
            (None, None) => true,
            _ => false,
        }
}

/// `a` and `b` differ in the types of identifiers, in the names that are looked up, in those of
/// functions, and in their parts at most.
pub open spec fn same_outside(a: SpannedExpr, b: SpannedExpr) -> bool {
    &&& a.span == b.span
    &&& match (a.value, b.value) {
        (Expr::Ident(_), Expr::Ident(_)) => true,
        (Expr::App(_, x), Expr::App(_, y)) => x@.len() == y@.len(),
        (Expr::Lambda(x), Expr::Lambda(y)) => same_idents(x.args@, y.args@),
        (Expr::IfElse(..), Expr::IfElse(..)) => true,
        (Expr::Match(_, x), Expr::Match(_, y)) => x@.len() == y@.len() && forall|i: int|
            0 <= i < x@.len() ==> same_pattern(x@[i].pattern, (#[trigger] y@[i]).pattern),
        (Expr::Infix(_, x, _), Expr::Infix(_, y, _)) => x.span == y.span && x.value.name
            == y.value.name,
        (Expr::Projection(_, x, _), Expr::Projection(_, y, _)) => x == y,
        (Expr::Array(_, x), Expr::Array(_, y)) => x@.len() == y@.len(),
        (Expr::Block(x), Expr::Block(y)) => x@.len() == y@.len(),
        (
            Expr::Record { typ: _, types: t, exprs: x, base: p },
            Expr::Record { typ: _, types: u, exprs: y, base: q },
        ) => t == u && p == q && crate::macros::same_fields(x@, y@),
        (Expr::LetBindings(x, _), Expr::LetBindings(y, _)) => x@.len() == y@.len() && forall|i: int|
            0 <= i < x@.len() ==> same_binding(x@[i], #[trigger] y@[i]),
        (Expr::TypeBindings(x, _), Expr::TypeBindings(y, _)) => x == y,
        _ => a.value == b.value,
    }
}

pub open spec fn same_binding(a: ValueBinding, b: ValueBinding) -> bool {
    a.comment == b.comment && a.typ == b.typ && same_pattern(a.name, b.name) && same_idents(
        a.args@,
        b.args@,
    )
}

/// `a` and `b` differ in the types of identifiers and in the names that are looked up at most.
pub open spec fn same_but_types(a: SpannedExpr, b: SpannedExpr) -> bool
    decreases a,
    via same_but_types_ends
{
    &&& same_outside(a, b)
    &&& parts(a).len() == parts(b).len()
    &&& forall|i: int| 0 <= i < parts(a).len() ==> same_but_types(#[trigger] parts(a)[i], parts(b)[i])
}

#[via_fn]
proof fn same_but_types_ends(a: SpannedExpr, b: SpannedExpr) {
    parts_decrease(a);
}

pub(crate) proof fn same_itself(a: SpannedExpr)
    ensures
        same_but_types(a, a),
    decreases a,
{
    parts_decrease(a);
    assert forall|i: int| 0 <= i < parts(a).len() implies same_but_types(
        #[trigger] parts(a)[i],
        parts(a)[i],
    ) by {
        same_itself(parts(a)[i]);
    }
}

/// Puts the next type into `typ`.
fn fill_type(typ: &mut ArcType, notes: &Vec<(Symbol, ArcType)>, at: usize) -> (next: usize)
    requires
        at <= notes@.len(),
    ensures
        filled(
            seq![typed(old(typ)@)],
            seq![typed(final(typ)@)],
            types_table(notes@),
            at as int,
            next as int,
        ),
{
    let ghost types = types_table(notes@);
    assert(types.len() == notes@.len());
    if at < notes.len() {
        assert(types[at as int] == (notes@[at as int].0@, notes@[at as int].1@));
        *typ = notes[at].1.clone();
        assert(refilled(seq![typed(old(typ)@)], types, at as int) =~= seq![typed(typ@)]);
        at + 1
    } else {
        assert(refilled(seq![typed(old(typ)@)], types, at as int) =~= seq![typed(typ@)]);
        at
    }
}

/// Puts the next name and the next type into `id`.
fn fill_ident(id: &mut TypedIdent, notes: &Vec<(Symbol, ArcType)>, at: usize) -> (next: usize)
    requires
        at <= notes@.len(),
    ensures
        filled(
            seq![Some(Place { name: Some(old(id).name@), typ: old(id).typ@ })],
            seq![Some(Place { name: Some(final(id).name@), typ: final(id).typ@ })],
            types_table(notes@),
            at as int,
            next as int,
        ),
{
    let ghost types = types_table(notes@);
    let ghost before = seq![Some(Place { name: Some(id.name@), typ: id.typ@ })];
    assert(types.len() == notes@.len());
    if at < notes.len() {
        assert(types[at as int] == (notes@[at as int].0@, notes@[at as int].1@));
        id.name = notes[at].0.clone();
        id.typ = notes[at].1.clone();
        assert(refilled(before, types, at as int) =~= seq![
            Some(Place { name: Some(id.name@), typ: id.typ@ }),
        ]);
        at + 1
    } else {
        assert(refilled(before, types, at as int) =~= before);
        at
    }
}

fn fill_idents(idents: &mut Vec<SpannedIdent>, notes: &Vec<(Symbol, ArcType)>, at: usize) -> (next:
    usize)
    requires
        at <= notes@.len(),
    ensures
        same_idents(old(idents)@, final(idents)@),
        filled(
            ident_places(old(idents)@),
            ident_places(final(idents)@),
            types_table(notes@),
            at as int,
            next as int,
        ),
{
    let ghost types = types_table(notes@);
    let ghost all = idents@;
    let mut next: usize = at;
    let mut i: usize = 0;
    proof {
        none_filled(types, at as int);
        assert(ident_places(all.take(0)) =~= Seq::<Option<Place>>::empty());
    }
    while i < idents.len()
        invariant
            i <= idents@.len(),
            idents@.len() == all.len(),
            all == old(idents)@,
            types == types_table(notes@),
            next <= notes@.len(),
            forall|j: int|
                0 <= j < all.len() ==> (#[trigger] idents@[j]).span == all[j].span
                    && idents@[j].value.name == all[j].value.name,
            forall|j: int| i <= j < all.len() ==> #[trigger] idents@[j] == all[j],
            filled(
                ident_places(all.take(i as int)),
                ident_places(idents@.take(i as int)),
                types,
                at as int,
                next as int,
            ),
        decreases idents@.len() - i,
    {
        let ghost before = idents@;
        let ghost mid = next as int;
        assert(types.len() == notes@.len());
        next = fill_type(&mut idents[i].value.typ, notes, next);
        proof {
            let (t, u) = (all[i as int].value.typ@, idents@[i as int].value.typ@);
            both_filled(
                ident_places(all.take(i as int)),
                ident_places(before.take(i as int)),
                seq![typed(t)],
                seq![typed(u)],
                types,
                at as int,
                mid,
                next as int,
            );
            assert(ident_places(all.take(i + 1)) =~= ident_places(all.take(i as int)) + seq![
                typed(t),
            ]);
            assert(ident_places(idents@.take(i + 1)) =~= ident_places(before.take(i as int))
                + seq![typed(u)]);
        }
        i += 1;
    }
    assert(all.take(i as int) =~= all);
    assert(idents@.take(i as int) =~= idents@);
    next
}

/// Puts the next type into a pattern inside of another.
fn fill_inner(pattern: &mut SpannedPattern, notes: &Vec<(Symbol, ArcType)>, at: usize) -> (next:
    usize)
    requires
        at <= notes@.len(),
    ensures
        same_inner(*old(pattern), *final(pattern)),
        filled(
            seq![inner_place(*old(pattern))],
            seq![inner_place(*final(pattern))],
            types_table(notes@),
            at as int,
            next as int,
        ),
{
    let ghost types = types_table(notes@);
    match &mut pattern.value {
        Pattern::Ident(id) => fill_type(&mut id.typ, notes, at),
        _ => pass(notes, at),
    }
}

/// Leaves the next type out.
fn pass(notes: &Vec<(Symbol, ArcType)>, at: usize) -> (next: usize)
    requires
        at <= notes@.len(),
    ensures
        filled(
            seq![None],
            seq![None],
            types_table(notes@),
            at as int,
            next as int,
        ),
{
    let ghost types = types_table(notes@);
    assert(types.len() == notes@.len());
    assert(refilled(seq![None], types, at as int) =~= seq![None::<Place>]);
    if at < notes.len() {
        at + 1
    } else {
        at
    }
}

fn fill_inners(
    patterns: &mut Vec<SpannedPattern>,
    notes: &Vec<(Symbol, ArcType)>,
    at: usize,
) -> (next: usize)
    requires
        at <= notes@.len(),
    ensures
        same_inners(old(patterns)@, final(patterns)@),
        filled(
            inner_places(old(patterns)@),
            inner_places(final(patterns)@),
            types_table(notes@),
            at as int,
            next as int,
        ),
{
    let ghost types = types_table(notes@);
    let ghost all = patterns@;
    let mut next: usize = at;
    let mut i: usize = 0;
    proof {
        none_filled(types, at as int);
        assert(inner_places(all.take(0)) =~= Seq::<Option<Place>>::empty());
    }
    while i < patterns.len()
        invariant
            i <= patterns@.len(),
            patterns@.len() == all.len(),
            all == old(patterns)@,
            types == types_table(notes@),
            next <= notes@.len(),
            forall|j: int| 0 <= j < i ==> same_inner(all[j], #[trigger] patterns@[j]),
            forall|j: int| i <= j < all.len() ==> #[trigger] patterns@[j] == all[j],
            filled(
                inner_places(all.take(i as int)),
                inner_places(patterns@.take(i as int)),
                types,
                at as int,
                next as int,
            ),
        decreases patterns@.len() - i,
    {
        let ghost before = patterns@;
        let ghost mid = next as int;
        assert(types.len() == notes@.len());
        next = fill_inner(&mut patterns[i], notes, next);
        proof {
            let (t, u) = (inner_place(all[i as int]), inner_place(patterns@[i as int]));
            both_filled(
                inner_places(all.take(i as int)),
                inner_places(before.take(i as int)),
                seq![t],
                seq![u],
                types,
                at as int,
                mid,
                next as int,
            );
            assert(inner_places(all.take(i + 1)) =~= inner_places(all.take(i as int)) + seq![t]);
            assert(inner_places(patterns@.take(i + 1)) =~= inner_places(before.take(i as int))
                + seq![u]);
        }
        i += 1;
    }
    assert(all.take(i as int) =~= all);
    assert(patterns@.take(i as int) =~= patterns@);
    next
}

fn fill_pattern_fields(
    fields: &mut Vec<PatternField>,
    notes: &Vec<(Symbol, ArcType)>,
    at: usize,
) -> (next: usize)
    requires
        at <= notes@.len(),
    ensures
        same_pattern_fields(old(fields)@, final(fields)@),
        filled(
            field_places(old(fields)@),
            field_places(final(fields)@),
            types_table(notes@),
            at as int,
            next as int,
        ),
{
    let ghost types = types_table(notes@);
    let ghost all = fields@;
    let mut next: usize = at;
    let mut i: usize = 0;
    proof {
        none_filled(types, at as int);
        assert(field_places(all.take(0)) =~= Seq::<Option<Place>>::empty());
    }
    while i < fields.len()
        invariant
            i <= fields@.len(),
            fields@.len() == all.len(),
            all == old(fields)@,
            types == types_table(notes@),
            next <= notes@.len(),
            forall|j: int|
                0 <= j < i ==> (#[trigger] fields@[j]).name == all[j].name && match (
                    all[j].value,
                    fields@[j].value,
                ) {
                    (Some(p), Some(q)) => same_inner(p, q),
                    (None, None) => true,
                    _ => false,
                },
            forall|j: int| i <= j < all.len() ==> #[trigger] fields@[j] == all[j],
            filled(
                field_places(all.take(i as int)),
                field_places(fields@.take(i as int)),
                types,
                at as int,
                next as int,
            ),
        decreases fields@.len() - i,
    {
        let ghost before = fields@;
        let ghost mid = next as int;
        assert(types.len() == notes@.len());
        next =
        match &mut fields[i].value {
            Some(pattern) => fill_inner(pattern, notes, next),
            None => pass(notes, next),
        };
        proof {
            let (t, u) = (field_place(all[i as int]), field_place(fields@[i as int]));
            both_filled(
                field_places(all.take(i as int)),
                field_places(before.take(i as int)),
                seq![t],
                seq![u],
                types,
                at as int,
                mid,
                next as int,
            );
            assert(field_places(all.take(i + 1)) =~= field_places(all.take(i as int)) + seq![t]);
            assert(field_places(fields@.take(i + 1)) =~= field_places(before.take(i as int))
                + seq![u]);
        }
        i += 1;
    }
    assert(all.take(i as int) =~= all);
    assert(fields@.take(i as int) =~= fields@);
    next
}

fn fill_pattern(pattern: &mut SpannedPattern, notes: &Vec<(Symbol, ArcType)>, at: usize) -> (next:
    usize)
    requires
        at <= notes@.len(),
    ensures
        same_pattern(*old(pattern), *final(pattern)),
        filled(
            pattern_places(*old(pattern)),
            pattern_places(*final(pattern)),
            types_table(notes@),
            at as int,
            next as int,
        ),
{
    let ghost types = types_table(notes@);
    assert(types.len() == notes@.len());
    proof {
        none_filled(types, at as int);
    }
    match &mut pattern.value {
        Pattern::Ident(id) => fill_type(&mut id.typ, notes, at),
        Pattern::Constructor(_, args) => fill_inners(args, notes, at),
        Pattern::Record { typ, types: _, fields } => {
            let ghost (t, f) = (typ@, field_places(fields@));
            let mid = fill_type(typ, notes, at);
            let next = fill_pattern_fields(fields, notes, mid);
            proof {
                both_filled(
                    seq![typed(t)],
                    seq![typed(typ@)],
                    f,
                    field_places(fields@),
                    types,
                    at as int,
                    mid as int,
                    next as int,
                );
            }
            next
        },
        _ => at,
    }
}

/// `a` and `b` differ in the types of identifiers at most.
pub open spec fn same_alternative(a: Alternative, b: Alternative) -> bool {
    same_pattern(a.pattern, b.pattern) && same_but_types(a.expr, b.expr)
}

/// `a` and `b` differ in the types of identifiers at most.
pub open spec fn same_value(a: ExprField, b: ExprField) -> bool {
    a.name == b.name && match (a.value, b.value) {
        (Some(v), Some(w)) => same_but_types(v, w),
        (None, None) => true,
        _ => false,
    }
}

proof fn same_all(a: Seq<SpannedExpr>, b: Seq<SpannedExpr>, n: nat)
    requires
        n <= a.len(),
        n <= b.len(),
        forall|i: int| 0 <= i < n ==> #[trigger] b[i] == a[i],
    ensures
        all_places(b, n) == all_places(a, n),
    decreases n,
{
    if n > 0 {
        same_all(a, b, (n - 1) as nat);
        assert(b[n - 1] == a[n - 1]);
    }
}

proof fn same_alts(a: Seq<Alternative>, b: Seq<Alternative>, n: nat)
    requires
        n <= a.len(),
        n <= b.len(),
        forall|i: int| 0 <= i < n ==> #[trigger] b[i] == a[i],
    ensures
        alt_places(b, n) == alt_places(a, n),
    decreases n,
{
    if n > 0 {
        same_alts(a, b, (n - 1) as nat);
        assert(b[n - 1] == a[n - 1]);
    }
}

proof fn same_values(a: Seq<ExprField>, b: Seq<ExprField>, n: nat)
    requires
        n <= a.len(),
        n <= b.len(),
        forall|i: int| 0 <= i < n ==> #[trigger] b[i] == a[i],
    ensures
        value_places(b, n) == value_places(a, n),
    decreases n,
{
    if n > 0 {
        same_values(a, b, (n - 1) as nat);
        assert(b[n - 1] == a[n - 1]);
    }
}

proof fn same_names(a: Seq<ValueBinding>, b: Seq<ValueBinding>, n: nat)
    requires
        n <= a.len(),
        n <= b.len(),
        forall|i: int| 0 <= i < n ==> #[trigger] b[i] == a[i],
    ensures
        name_places(b, n) == name_places(a, n),
    decreases n,
{
    if n > 0 {
        same_names(a, b, (n - 1) as nat);
        assert(b[n - 1] == a[n - 1]);
    }
}

proof fn same_bindings(a: Seq<ValueBinding>, b: Seq<ValueBinding>, last: bool, n: nat)
    requires
        n <= a.len(),
        n <= b.len(),
        forall|i: int| 0 <= i < n ==> #[trigger] b[i] == a[i],
    ensures
        binding_places(b, last, n) == binding_places(a, last, n),
    decreases n,
{
    if n > 0 {
        same_bindings(a, b, last, (n - 1) as nat);
        assert(b[n - 1] == a[n - 1]);
    }
}

#[verifier::rlimit(30)]
fn fill_exprs(
    items: &mut Vec<SpannedExpr>,
    notes: &Vec<(Symbol, ArcType)>,
    at: usize,
) -> (next: usize)
    requires
        at <= notes@.len(),
    ensures
        final(items)@.len() == old(items)@.len(),
        forall|i: int| 0 <= i < old(items)@.len() ==> same_but_types(old(items)@[i], #[trigger] final(items)@[i]),
        filled(
            all_places(old(items)@, old(items)@.len()),
            all_places(final(items)@, final(items)@.len()),
            types_table(notes@),
            at as int,
            next as int,
        ),
    decreases old(items)@, 0nat,
{
    let ghost types = types_table(notes@);
    let ghost all = items@;
    let mut next: usize = at;
    let mut i: usize = 0;
    proof {
        none_filled(types, at as int);
    }
    while i < items.len()
        invariant
            i <= items@.len(),
            items@.len() == all.len(),
            all == old(items)@,
            types == types_table(notes@),
            next <= notes@.len(),
            forall|j: int| 0 <= j < i ==> same_but_types(all[j], #[trigger] items@[j]),
            forall|j: int| i <= j < all.len() ==> #[trigger] items@[j] == all[j],
            filled(
                all_places(all, i as nat),
                all_places(items@, i as nat),
                types,
                at as int,
                next as int,
            ),
        decreases items@.len() - i,
    {
        let ghost before = items@;
        let ghost start = next as int;
        let ghost a = all[i as int];
        assert(types.len() == notes@.len());
        assert(items@[i as int] == a);
        assert(decreases_to!(all => all[i as int]));
        next = fill_expr(&mut items[i], notes, next);
        proof {
            let b = items@[i as int];
            same_all(before, items@, i as nat);
            let (p, q) = (all_places(all, i as nat), all_places(items@, i as nat));
            both_filled(p, q, places(a), places(b), types, at as int, start, next as int);
        }
        i += 1;
    }
    next
}

#[verifier::rlimit(30)]
fn fill_alternatives(
    items: &mut Vec<Alternative>,
    notes: &Vec<(Symbol, ArcType)>,
    at: usize,
) -> (next: usize)
    requires
        at <= notes@.len(),
    ensures
        final(items)@.len() == old(items)@.len(),
        forall|i: int| 0 <= i < old(items)@.len() ==> same_alternative(old(items)@[i], #[trigger] final(items)@[i]),
        filled(
            alt_places(old(items)@, old(items)@.len()),
            alt_places(final(items)@, final(items)@.len()),
            types_table(notes@),
            at as int,
            next as int,
        ),
    decreases old(items)@, 0nat,
{
    let ghost types = types_table(notes@);
    let ghost all = items@;
    let mut next: usize = at;
    let mut i: usize = 0;
    proof {
        none_filled(types, at as int);
    }
    while i < items.len()
        invariant
            i <= items@.len(),
            items@.len() == all.len(),
            all == old(items)@,
            types == types_table(notes@),
            next <= notes@.len(),
            forall|j: int| 0 <= j < i ==> same_alternative(all[j], #[trigger] items@[j]),
            forall|j: int| i <= j < all.len() ==> #[trigger] items@[j] == all[j],
            filled(
                alt_places(all, i as nat),
                alt_places(items@, i as nat),
                types,
                at as int,
                next as int,
            ),
        decreases items@.len() - i,
    {
        let ghost before = items@;
        let ghost start = next as int;
        let ghost a = all[i as int];
        assert(types.len() == notes@.len());
        assert(items@[i as int] == a);
        assert(decreases_to!(all => all[i as int]));
        next = fill_pattern(&mut items[i].pattern, notes, next);
        let ghost mid = next as int;
        next = fill_expr(&mut items[i].expr, notes, next);
        proof {
            let b = items@[i as int];
            same_alts(before, items@, i as nat);
            let (p, q) = (alt_places(all, i as nat), alt_places(items@, i as nat));
            both_filled(
                p,
                q,
                pattern_places(a.pattern),
                pattern_places(b.pattern),
                types,
                at as int,
                start,
                mid,
            );
            both_filled(
                p + pattern_places(a.pattern),
                q + pattern_places(b.pattern),
                places(a.expr),
                places(b.expr),
                types,
                at as int,
                mid,
                next as int,
            );
        }
        i += 1;
    }
    next
}

#[verifier::rlimit(30)]
fn fill_values(
    items: &mut Vec<ExprField>,
    notes: &Vec<(Symbol, ArcType)>,
    at: usize,
) -> (next: usize)
    requires
        at <= notes@.len(),
    ensures
        final(items)@.len() == old(items)@.len(),
        forall|i: int| 0 <= i < old(items)@.len() ==> same_value(old(items)@[i], #[trigger] final(items)@[i]),
        filled(
            value_places(old(items)@, old(items)@.len()),
            value_places(final(items)@, final(items)@.len()),
            types_table(notes@),
            at as int,
            next as int,
        ),
    decreases old(items)@, 0nat,
{
    let ghost types = types_table(notes@);
    let ghost all = items@;
    let mut next: usize = at;
    let mut i: usize = 0;
    proof {
        none_filled(types, at as int);
    }
    while i < items.len()
        invariant
            i <= items@.len(),
            items@.len() == all.len(),
            all == old(items)@,
            types == types_table(notes@),
            next <= notes@.len(),
            forall|j: int| 0 <= j < i ==> same_value(all[j], #[trigger] items@[j]),
            forall|j: int| i <= j < all.len() ==> #[trigger] items@[j] == all[j],
            filled(
                value_places(all, i as nat),
                value_places(items@, i as nat),
                types,
                at as int,
                next as int,
            ),
        decreases items@.len() - i,
    {
        let ghost before = items@;
        let ghost start = next as int;
        let ghost a = all[i as int];
        assert(types.len() == notes@.len());
        assert(items@[i as int] == a);
        assert(decreases_to!(all => all[i as int]));
        match &mut items[i].value {
            Some(value) => {
                next = fill_expr(value, notes, next);
            },
            None => {
                next = pass(notes, next);
            },
        }
        proof {
            let b = items@[i as int];
            same_values(before, items@, i as nat);
            let (p, q) = (value_places(all, i as nat), value_places(items@, i as nat));
            match (a.value, b.value) {
                (Some(v), Some(w)) => {
                    both_filled(p, q, places(v), places(w), types, at as int, start, next as int);
                },
                _ => {
                    let none = seq![None::<Place>];
                    both_filled(p, q, none, none, types, at as int, start, next as int);
                },
            }
        }
        i += 1;
    }
    next
}

fn fill_names(
    items: &mut Vec<ValueBinding>,
    notes: &Vec<(Symbol, ArcType)>,
    at: usize,
) -> (next: usize)
    requires
        at <= notes@.len(),
    ensures
        final(items)@.len() == old(items)@.len(),
        forall|i: int| 0 <= i < old(items)@.len() ==> old(items)@[i] == (ValueBinding {
            name: old(items)@[i].name,
            ..#[trigger] final(items)@[i]
        }) && same_pattern(old(items)@[i].name, final(items)@[i].name),
        filled(
            name_places(old(items)@, old(items)@.len()),
            name_places(final(items)@, final(items)@.len()),
            types_table(notes@),
            at as int,
            next as int,
        ),
    decreases old(items)@, 0nat,
{
    let ghost types = types_table(notes@);
    let ghost all = items@;
    let mut next: usize = at;
    let mut i: usize = 0;
    proof {
        none_filled(types, at as int);
    }
    while i < items.len()
        invariant
            i <= items@.len(),
            items@.len() == all.len(),
            all == old(items)@,
            types == types_table(notes@),
            next <= notes@.len(),
            forall|j: int| 0 <= j < i ==> all[j] == (ValueBinding { name: all[j].name, ..#[trigger] items@[j] })
                && same_pattern(all[j].name, items@[j].name),
            forall|j: int| i <= j < all.len() ==> #[trigger] items@[j] == all[j],
            filled(
                name_places(all, i as nat),
                name_places(items@, i as nat),
                types,
                at as int,
                next as int,
            ),
        decreases items@.len() - i,
    {
        let ghost before = items@;
        let ghost start = next as int;
        let ghost a = all[i as int];
        assert(types.len() == notes@.len());
        assert(items@[i as int] == a);
        assert(decreases_to!(all => all[i as int]));
        next = fill_pattern(&mut items[i].name, notes, next);
        proof {
            let b = items@[i as int];
            same_names(before, items@, i as nat);
            let (p, q) = (name_places(all, i as nat), name_places(items@, i as nat));
            both_filled(
                p,
                q,
                pattern_places(a.name),
                pattern_places(b.name),
                types,
                at as int,
                start,
                next as int,
            );
        }
        i += 1;
    }
    next
}

#[verifier::rlimit(30)]
fn fill_bindings(
    items: &mut Vec<ValueBinding>,
    last: bool,
    notes: &Vec<(Symbol, ArcType)>,
    at: usize,
    Ghost(whole): Ghost<Seq<ValueBinding>>,
) -> (next: usize)
    requires
        at <= notes@.len(),
        whole.len() == old(items)@.len(),
        forall|i: int| 0 <= i < whole.len() ==> (#[trigger] old(items)@[i]).expr == whole[i].expr,
    ensures
        final(items)@.len() == old(items)@.len(),
        forall|i: int| 0 <= i < old(items)@.len() ==> same_binding(old(items)@[i], #[trigger] final(items)@[i]) && same_but_types(
            old(items)@[i].expr,
            final(items)@[i].expr,
        ) && (!last ==> old(items)@[i].name == final(items)@[i].name),
        filled(
            binding_places(old(items)@, last, old(items)@.len()),
            binding_places(final(items)@, last, final(items)@.len()),
            types_table(notes@),
            at as int,
            next as int,
        ),
    decreases whole, 0nat,
{
    let ghost types = types_table(notes@);
    let ghost all = items@;
    let mut next: usize = at;
    let mut i: usize = 0;
    proof {
        none_filled(types, at as int);
    }
    while i < items.len()
        invariant
            i <= items@.len(),
            items@.len() == all.len(),
            all == old(items)@,
            whole.len() == all.len(),
            forall|i: int| 0 <= i < whole.len() ==> (#[trigger] all[i]).expr == whole[i].expr,
            types == types_table(notes@),
            next <= notes@.len(),
            forall|j: int| 0 <= j < i ==> same_binding(all[j], #[trigger] items@[j]) && same_but_types(
                all[j].expr,
                items@[j].expr,
            ) && (!last ==> all[j].name == items@[j].name),
            forall|j: int| i <= j < all.len() ==> #[trigger] items@[j] == all[j],
            filled(
                binding_places(all, last, i as nat),
                binding_places(items@, last, i as nat),
                types,
                at as int,
                next as int,
            ),
        decreases items@.len() - i,
    {
        let ghost before = items@;
        let ghost start = next as int;
        let ghost a = all[i as int];
        assert(types.len() == notes@.len());
        assert(items@[i as int] == a);
        assert(decreases_to!(whole => whole[i as int]));
        assert(all[i as int].expr == whole[i as int].expr);
        next = fill_idents(&mut items[i].args, notes, next);
        let ghost mid = next as int;
        next = fill_expr(&mut items[i].expr, notes, next);
        let ghost mid2 = next as int;
        if last {
            next = fill_pattern(&mut items[i].name, notes, next);
        }
        proof {
            let b = items@[i as int];
            same_bindings(before, items@, last, i as nat);
            let (p, q) = (
                binding_places(all, last, i as nat),
                binding_places(items@, last, i as nat),
            );
            both_filled(
                p,
                q,
                ident_places(a.args@),
                ident_places(b.args@),
                types,
                at as int,
                start,
                mid,
            );
            let (p2, q2) = (p + ident_places(a.args@), q + ident_places(b.args@));
            both_filled(p2, q2, places(a.expr), places(b.expr), types, at as int, mid, mid2);
            let (p3, q3) = (p2 + places(a.expr), q2 + places(b.expr));
            if last {
                both_filled(
                    p3,
                    q3,
                    pattern_places(a.name),
                    pattern_places(b.name),
                    types,
                    at as int,
                    mid2,
                    next as int,
                );
            } else {
                assert(p3 + Seq::<Option<Place>>::empty() =~= p3);
                assert(q3 + Seq::<Option<Place>>::empty() =~= q3);
            }
        }
        i += 1;
    }
    next
}

proof fn values_alike(a: Seq<ExprField>, b: Seq<ExprField>, n: nat)
    requires
        n <= a.len(),
        a.len() == b.len(),
        forall|i: int| 0 <= i < n ==> same_value(a[i], #[trigger] b[i]),
    ensures
        field_values(a, n).len() == field_values(b, n).len(),
        forall|i: int|
            0 <= i < field_values(a, n).len() ==> same_but_types(
                #[trigger] field_values(a, n)[i],
                field_values(b, n)[i],
            ),
    decreases n,
{
    if n > 0 {
        values_alike(a, b, (n - 1) as nat);
        assert(same_value(a[n - 1], b[n - 1]));
        let (v, w) = (field_values(a, (n - 1) as nat), field_values(b, (n - 1) as nat));
        assert forall|i: int| 0 <= i < field_values(a, n).len() implies same_but_types(
            #[trigger] field_values(a, n)[i],
            field_values(b, n)[i],
        ) by {
            if i < v.len() {
                assert(same_but_types(v[i], w[i]));
            }
        }
    }
}

proof fn bindings_named(a: Seq<ValueBinding>, b: Seq<ValueBinding>, n: nat)
    requires
        n <= a.len(),
        a.len() == b.len(),
        forall|i: int|
            0 <= i < n ==> a[i] == (ValueBinding { name: a[i].name, ..#[trigger] b[i] }),
    ensures
        binding_places(a, false, n) == binding_places(b, false, n),
    decreases n,
{
    if n > 0 {
        bindings_named(a, b, (n - 1) as nat);
        assert(a[n - 1] == (ValueBinding { name: a[n - 1].name, ..b[n - 1] }));
    }
}

proof fn names_kept(a: Seq<ValueBinding>, b: Seq<ValueBinding>, n: nat)
    requires
        n <= a.len(),
        a.len() == b.len(),
        forall|i: int| 0 <= i < n ==> a[i].name == (#[trigger] b[i]).name,
    ensures
        name_places(a, n) == name_places(b, n),
    decreases n,
{
    if n > 0 {
        names_kept(a, b, (n - 1) as nat);
        assert(a[n - 1].name == b[n - 1].name);
    }
}

/// Puts the types from `at` on into their places in `expr`.
#[verifier::rlimit(60)]
fn fill_expr(expr: &mut SpannedExpr, notes: &Vec<(Symbol, ArcType)>, at: usize) -> (next: usize)
    requires
        at <= notes@.len(),
    ensures
        same_but_types(*old(expr), *final(expr)),
        filled(
            places(*old(expr)),
            places(*final(expr)),
            types_table(notes@),
            at as int,
            next as int,
        ),
    decreases *old(expr), 1nat,
{
    let ghost types = types_table(notes@);
    let ghost a = *expr;
    let ghost s = at as int;
    assert(types.len() == notes@.len());
    proof {
        none_filled(types, s);
        same_itself(a);
        parts_decrease(a);
    }
    match &mut expr.value {
        Expr::Ident(id) => fill_ident(id, notes, at),
        Expr::App(func, args) => {
            let ghost (f, x) = (**func, args@);
            let mid = fill_expr(func, notes, at);
            let next = fill_exprs(args, notes, mid);
            proof {
                let (g, y) = (**func, args@);
                both_filled(
                    places(f),
                    places(g),
                    all_places(x, x.len()),
                    all_places(y, y.len()),
                    types,
                    s,
                    mid as int,
                    next as int,
                );
            }
            next
        },
        Expr::Lambda(lambda) => {
            let ghost l = *lambda;
            let mid = fill_idents(&mut lambda.args, notes, at);
            let mid2 = fill_expr(&mut lambda.body, notes, mid);
            let next = fill_ident(&mut lambda.id, notes, mid2);
            proof {
                let m = *lambda;
                let (p, q) = (ident_places(l.args@), ident_places(m.args@));
                both_filled(
                    p,
                    q,
                    places(*l.body),
                    places(*m.body),
                    types,
                    s,
                    mid as int,
                    mid2 as int,
                );
                both_filled(
                    p + places(*l.body),
                    q + places(*m.body),
                    seq![Some(Place { name: Some(l.id.name@), typ: l.id.typ@ })],
                    seq![Some(Place { name: Some(m.id.name@), typ: m.id.typ@ })],
                    types,
                    s,
                    mid2 as int,
                    next as int,
                );
            }
            next
        },
        Expr::IfElse(pred, yes, no) => {
            let ghost (p, y, n) = (**pred, **yes, **no);
            let mid = fill_expr(pred, notes, at);
            let mid2 = fill_expr(yes, notes, mid);
            let next = fill_expr(no, notes, mid2);
            proof {
                let (p2, y2, n2) = (**pred, **yes, **no);
                both_filled(
                    places(p),
                    places(p2),
                    places(y),
                    places(y2),
                    types,
                    s,
                    mid as int,
                    mid2 as int,
                );
                both_filled(
                    places(p) + places(y),
                    places(p2) + places(y2),
                    places(n),
                    places(n2),
                    types,
                    s,
                    mid2 as int,
                    next as int,
                );
            }
            next
        },
        Expr::Match(value, alts) => {
            let ghost (v, x) = (**value, alts@);
            let mid = fill_expr(value, notes, at);
            let next = fill_alternatives(alts, notes, mid);
            proof {
                let (w, y) = (**value, alts@);
                both_filled(
                    places(v),
                    places(w),
                    alt_places(x, x.len()),
                    alt_places(y, y.len()),
                    types,
                    s,
                    mid as int,
                    next as int,
                );
            }
            next
        },
        Expr::Infix(lhs, op, rhs) => {
            let ghost (l, o, r) = (**lhs, op.value.typ@, **rhs);
            let mid = fill_expr(lhs, notes, at);
            let mid2 = fill_expr(rhs, notes, mid);
            let next = fill_type(&mut op.value.typ, notes, mid2);
            proof {
                let (l2, o2, r2) = (**lhs, op.value.typ@, **rhs);
                both_filled(
                    places(l),
                    places(l2),
                    places(r),
                    places(r2),
                    types,
                    s,
                    mid as int,
                    mid2 as int,
                );
                both_filled(
                    places(l) + places(r),
                    places(l2) + places(r2),
                    seq![typed(o)],
                    seq![typed(o2)],
                    types,
                    s,
                    mid2 as int,
                    next as int,
                );
            }
            next
        },
        Expr::Projection(value, _, typ) => {
            let ghost (v, t) = (**value, typ@);
            let mid = fill_expr(value, notes, at);
            let next = fill_type(typ, notes, mid);
            proof {
                both_filled(
                    places(v),
                    places(**value),
                    seq![typed(t)],
                    seq![typed(typ@)],
                    types,
                    s,
                    mid as int,
                    next as int,
                );
            }
            next
        },
        Expr::Array(typ, elems) => {
            let ghost (t, x) = (typ@, elems@);
            let mid = fill_exprs(elems, notes, at);
            let next = fill_type(typ, notes, mid);
            proof {
                both_filled(
                    all_places(x, x.len()),
                    all_places(elems@, elems@.len()),
                    seq![typed(t)],
                    seq![typed(typ@)],
                    types,
                    s,
                    mid as int,
                    next as int,
                );
            }
            next
        },
        Expr::Block(exprs) => fill_exprs(exprs, notes, at),
        Expr::Record { typ, types: _, exprs, base } => {
            let ghost (t, x) = (typ@, exprs@);
            let mid = fill_values(exprs, notes, at);
            let next = fill_type(typ, notes, mid);
            proof {
                both_filled(
                    value_places(x, x.len()),
                    value_places(exprs@, exprs@.len()),
                    seq![typed(t)],
                    seq![typed(typ@)],
                    types,
                    s,
                    mid as int,
                    next as int,
                );
                values_alike(x, exprs@, x.len());
                let (v, w) = (field_values(x, x.len()), field_values(exprs@, exprs@.len()));
                if let Some(base) = base {
                    same_itself(**base);
                }
            }
            next
        },
        Expr::LetBindings(bindings, body) => {
            let ghost (x, v) = (bindings@, **body);
            if are_functions(bindings) {
                let mid = fill_names(bindings, notes, at);
                let ghost y = bindings@;
                assert(all_functions(y));
                proof {
                    bindings_named(x, y, x.len());
                }
                let mid2 = fill_bindings(bindings, false, notes, mid, Ghost(x));
                let next = fill_expr(body, notes, mid2);
                proof {
                    let (z, w) = (bindings@, **body);
                    names_kept(y, z, y.len());
                    assert(all_functions(z));
                    both_filled(
                        name_places(x, x.len()),
                        name_places(z, z.len()),
                        binding_places(x, false, x.len()),
                        binding_places(z, false, z.len()),
                        types,
                        s,
                        mid as int,
                        mid2 as int,
                    );
                    both_filled(
                        name_places(x, x.len()) + binding_places(x, false, x.len()),
                        name_places(z, z.len()) + binding_places(z, false, z.len()),
                        places(v),
                        places(w),
                        types,
                        s,
                        mid2 as int,
                        next as int,
                    );
                }
                next
            } else {
                let mid = fill_bindings(bindings, true, notes, at, Ghost(x));
                let next = fill_expr(body, notes, mid);
                proof {
                    let (z, w) = (bindings@, **body);
                    let i = choose|i: int| 0 <= i < x.len() && (#[trigger] x[i]).args@.len() == 0;
                    assert(same_binding(x[i], z[i]));
                    assert(!all_functions(z));
                    both_filled(
                        binding_places(x, true, x.len()),
                        binding_places(z, true, z.len()),
                        places(v),
                        places(w),
                        types,
                        s,
                        mid as int,
                        next as int,
                    );
                }
                next
            }
        },
        Expr::TypeBindings(_, body) => fill_expr(body, notes, at),
        _ => at,
    }
}

/// Puts the types that were noted into their places in `expr`.
pub fn fill(expr: &mut SpannedExpr, notes: &Vec<(Symbol, ArcType)>)
    ensures
        same_but_types(*old(expr), *final(expr)),
        places(*final(expr)) == refilled(places(*old(expr)), types_table(notes@), 0),
{
    fill_expr(expr, notes, 0);
}

} // verus!
