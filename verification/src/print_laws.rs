//! What printing keeps: all of an expression, in order.

use vstd::prelude::*;
use crate::ast::{
    Alternative, AstType, Expr, ExprField, ExprTypeField, Pattern, PatternField, PatternTypeField,
    SpannedExpr, SpannedIdent, SpannedPattern, TypeBinding, ValueBinding,
};
use crate::doc::{ident_doc, operator_char, DocTree};
use crate::pretty_print::{
    alias_params_doc, alternatives_doc, any_gap, applies_constructor, args_doc, bare_doc, base_doc,
    binding_doc, binding_type_doc, bindings_doc, cat, cat_text, comment_doc, comments_tree,
    elems_doc, expr_doc, field_head, gap_behind_doc, gap_doc, gap_or, grouped, hang_doc,
    hanging_doc, idents_doc, item_doc, item_span, items_doc, kind_doc, lambda_doc, lead_doc,
    line_comments_tree, lines_doc, maybe_type, nested, newline_doc, ordered, own_doc,
    pattern_args_doc, pattern_doc, pattern_elems_doc, pattern_fields_doc, pattern_types_doc,
    separator, separator_in, source_doc, shebang_line, text_doc, type_binding_doc,
    type_bindings_doc, Item,
};
use crate::typecheck::kinds::kind_in;
use crate::source::{base_comments, comments_from, leading_comments, slice, trailing_comments};
use crate::types::display::{type_doc, Prec, Printer};
use crate::types::model::{GenericTy, Ty};

verus! {

/// The text in `doc`, without the white space that its layout adds, and behind it `rest`.
pub open spec fn text_of(doc: DocTree, rest: Seq<char>) -> Seq<char>
    decreases doc,
{
    match doc {
        DocTree::Append(l, r) => text_of(*l, text_of(*r, rest)),
        DocTree::Group(inner) => text_of(*inner, rest),
        DocTree::Nest(_, inner) => text_of(*inner, rest),
        DocTree::Text(text) => text + rest,
        _ => rest,
    }
}

/// The name of a value as it is written, and behind it `rest`: an operator stands in parentheses.
pub open spec fn written_name(name: Seq<char>, rest: Seq<char>) -> Seq<char> {
    if name.len() > 0 && operator_char(name[0]) {
        "("@ + (name + (")"@ + rest))
    } else {
        name + rest
    }
}

/// The type `typ` as it is written.
pub open spec fn written_type(p: &Printer, ast: AstType, typ: Ty, rest: Seq<char>) -> Seq<char> {
    text_of(type_doc(p, Some(ast), Prec::Top, typ), rest)
}

pub open spec fn written_pattern(pattern: SpannedPattern, rest: Seq<char>) -> Seq<char>
    decreases pattern, 0nat,
{
    match pattern.value {
        Pattern::As(id, inner) => id@ + ("@"@ + written_pattern(*inner, rest)),
        Pattern::Constructor(ctor, args) => ctor.name@ + written_pattern_args(
            args@,
            args@.len(),
            rest,
        ),
        Pattern::Ident(id) => written_name(id.name@, rest),
        Pattern::Record { typ: _, types, fields } => "{"@ + written_pattern_types(
            types@,
            types@.len(),
            written_pattern_fields(fields@, fields@.len(), types@.len() == 0, "}"@ + rest),
        ),
        Pattern::Tuple { typ: _, elems } => "("@ + written_patterns(
            elems@,
            elems@.len(),
            ")"@ + rest,
        ),
        Pattern::Error => "<error>"@ + rest,
    }
}

/// The arguments of a constructor. Those that have arguments themselves stand in parentheses.
pub open spec fn written_pattern_args(
    args: Seq<SpannedPattern>,
    n: nat,
    rest: Seq<char>,
) -> Seq<char>
    decreases args, n,
{
    if n == 0 || n > args.len() {
        rest
    } else {
        let arg = if applies_constructor(args[n - 1]) {
            "("@ + written_pattern(args[n - 1], ")"@ + rest)
        } else {
            written_pattern(args[n - 1], rest)
        };
        written_pattern_args(args, (n - 1) as nat, " "@ + arg)
    }
}

/// Patterns with commas between them.
pub open spec fn written_patterns(elems: Seq<SpannedPattern>, n: nat, rest: Seq<char>) -> Seq<char>
    decreases elems, n,
{
    if n == 0 || n > elems.len() {
        rest
    } else if n == 1 {
        written_pattern(elems[0], rest)
    } else {
        written_patterns(elems, (n - 1) as nat, ","@ + written_pattern(elems[n - 1], rest))
    }
}

pub open spec fn written_pattern_types(
    types: Seq<PatternTypeField>,
    n: nat,
    rest: Seq<char>,
) -> Seq<char>
    decreases n,
{
    if n == 0 || n > types.len() {
        rest
    } else if n == 1 {
        types[0].name.value@ + rest
    } else {
        written_pattern_types(types, (n - 1) as nat, ","@ + (types[n - 1].name.value@ + rest))
    }
}

/// The fields of a record pattern. A comma stands before each but the first entry of the pattern.
pub open spec fn written_pattern_fields(
    fields: Seq<PatternField>,
    n: nat,
    first: bool,
    rest: Seq<char>,
) -> Seq<char>
    decreases fields, n,
{
    if n == 0 || n > fields.len() {
        rest
    } else {
        let value = match fields[n - 1].value {
            Some(pattern) => " = "@ + written_pattern(pattern, rest),
            None => rest,
        };
        let field = written_name(fields[n - 1].name.value@, value);
        written_pattern_fields(
            fields,
            (n - 1) as nat,
            first,
            if n == 1 && first {
                field
            } else {
                ","@ + field
            },
        )
    }
}

/// Names with a space behind each.
pub open spec fn written_idents(idents: Seq<SpannedIdent>, n: nat, rest: Seq<char>) -> Seq<char>
    decreases n,
{
    if n == 0 || n > idents.len() {
        rest
    } else {
        written_idents(idents, (n - 1) as nat, idents[n - 1].value.name@ + (" "@ + rest))
    }
}

/// The entries of a record in the order in which they stand in the source.
pub open spec fn entries(
    types: Seq<ExprTypeField>,
    exprs: Seq<ExprField>,
    i: int,
    j: int,
) -> Seq<Item>
    decreases types.len() - i + exprs.len() - j,
{
    if i < 0 || j < 0 || i > types.len() || j > exprs.len() || (i == types.len() && j
        == exprs.len()) {
        Seq::empty()
    } else if j == exprs.len() || (i < types.len() && types[i].name.span.start.0
        < exprs[j].name.span.start.0) {
        seq![Item::Type(i as usize)] + entries(types, exprs, i + 1, j)
    } else {
        seq![Item::Field(j as usize)] + entries(types, exprs, i, j + 1)
    }
}

pub open spec fn written_entry(
    src: Seq<char>,
    p: &Printer,
    types: Seq<ExprTypeField>,
    exprs: Seq<ExprField>,
    item: Item,
    rest: Seq<char>,
) -> Seq<char>
    decreases exprs, 0nat,
{
    match item {
        Item::Type(i) => written_name(types[i as int].name.value@, rest),
        Item::Field(j) => if 0 <= j < exprs.len() {
            match exprs[j as int].value {
                Some(expr) => written_name(
                    exprs[j as int].name.value@,
                    " ="@ + written(src, p, expr, rest),
                ),
                None => written_name(exprs[j as int].name.value@, rest),
            }
        } else {
            rest
        },
    }
}

/// The first `n` of `items` with commas between them.
pub open spec fn written_entries(
    src: Seq<char>,
    p: &Printer,
    types: Seq<ExprTypeField>,
    exprs: Seq<ExprField>,
    items: Seq<Item>,
    n: nat,
    rest: Seq<char>,
) -> Seq<char>
    decreases exprs, n + 1,
{
    if n == 0 || n > items.len() {
        rest
    } else {
        let entry = written_entry(src, p, types, exprs, items[n - 1], rest);
        written_entries(
            src,
            p,
            types,
            exprs,
            items,
            (n - 1) as nat,
            if n == 1 {
                entry
            } else {
                ","@ + entry
            },
        )
    }
}

/// Expressions one behind the other.
pub open spec fn written_all(
    src: Seq<char>,
    p: &Printer,
    exprs: Seq<SpannedExpr>,
    n: nat,
    rest: Seq<char>,
) -> Seq<char>
    decreases exprs, n,
{
    if n == 0 || n > exprs.len() {
        rest
    } else {
        written_all(src, p, exprs, (n - 1) as nat, written(src, p, exprs[n - 1], rest))
    }
}

/// Expressions with commas between them.
pub open spec fn written_elems(
    src: Seq<char>,
    p: &Printer,
    exprs: Seq<SpannedExpr>,
    n: nat,
    rest: Seq<char>,
) -> Seq<char>
    decreases exprs, n,
{
    if n == 0 || n > exprs.len() {
        rest
    } else {
        let elem = written(src, p, exprs[n - 1], rest);
        written_elems(
            src,
            p,
            exprs,
            (n - 1) as nat,
            if n == 1 {
                elem
            } else {
                ","@ + elem
            },
        )
    }
}

pub open spec fn written_alternatives(
    src: Seq<char>,
    p: &Printer,
    alts: Seq<Alternative>,
    n: nat,
    rest: Seq<char>,
) -> Seq<char>
    decreases alts, n,
{
    if n == 0 || n > alts.len() {
        rest
    } else {
        let value = " ->"@ + written(src, p, alts[n - 1].expr, rest);
        written_alternatives(
            src,
            p,
            alts,
            (n - 1) as nat,
            "| "@ + written_pattern(alts[n - 1].pattern, value),
        )
    }
}

/// The type that is written for a binding.
pub open spec fn written_annotation(p: &Printer, bind: ValueBinding, rest: Seq<char>) -> Seq<char> {
    match bind.typ {
        Some(typ) => if typ.typ@ is Hole {
            rest
        } else {
            ": "@ + written_type(p, typ, typ.typ@, rest)
        },
        None => rest,
    }
}

/// The bindings, the first behind `let` and the others behind `and`.
pub open spec fn written_bindings(
    src: Seq<char>,
    p: &Printer,
    binds: Seq<ValueBinding>,
    n: nat,
    rest: Seq<char>,
) -> Seq<char>
    decreases binds, n,
{
    if n == 0 || n > binds.len() {
        rest
    } else {
        let bind = binds[n - 1];
        let word = if n == 1 {
            "let "@
        } else {
            "and "@
        };
        let value = written_annotation(p, bind, "="@ + written(src, p, bind.expr, rest));
        let args = " "@ + written_idents(bind.args@, bind.args@.len(), value);
        written_bindings(
            src,
            p,
            binds,
            (n - 1) as nat,
            text_of(comment_doc(bind.comment), word + written_pattern(bind.name, args)),
        )
    }
}

/// The parameters of a type, with their kinds where those are written.
pub open spec fn written_params(params: Seq<GenericTy>, n: nat, rest: Seq<char>) -> Seq<char>
    decreases n,
{
    if n == 0 || n > params.len() {
        rest
    } else {
        let param = params[n - 1];
        written_params(
            params,
            (n - 1) as nat,
            if *param.kind is Type || *param.kind is Hole {
                param.id + rest
            } else {
                "("@ + (param.id + (" :"@ + text_of(kind_doc(Prec::Top, *param.kind), ")"@ + rest)))
            },
        )
    }
}

pub open spec fn written_type_bindings(
    p: &Printer,
    binds: Seq<TypeBinding>,
    n: nat,
    rest: Seq<char>,
) -> Seq<char>
    decreases n,
{
    if n == 0 || n > binds.len() {
        rest
    } else {
        let bind = binds[n - 1];
        let data = bind.alias.value@;
        let word = if n == 1 {
            "type"@
        } else {
            "and"@
        };
        let typ = "= "@ + written_type(p, bind.aliased_type, data.typ, rest);
        let params = written_params(data.params, data.params.len(), typ);
        written_type_bindings(
            p,
            binds,
            (n - 1) as nat,
            word + (" "@ + (bind.name.value@ + (" "@ + params))),
        )
    }
}

/// `expr` as it is written, without the white space between its parts, and behind it `rest`. A
/// literal is written as it stands in `src`.
pub open spec fn written(src: Seq<char>, p: &Printer, expr: SpannedExpr, rest: Seq<char>) -> Seq<char>
    decreases expr, 0nat,
{
    match expr.value {
        Expr::Ident(id) => written_name(id.name@, rest),
        Expr::Literal(_) => match slice(src, expr.span.start.0 as int, expr.span.end.0 as int) {
            Some(text) => text + rest,
            None => rest,
        },
        Expr::App(func, args) => written(
            src,
            p,
            *func,
            written_all(src, p, args@, args@.len(), rest),
        ),
        Expr::Lambda(lambda) => "\\"@ + written_idents(
            lambda.args@,
            lambda.args@.len(),
            "->"@ + written(src, p, *lambda.body, rest),
        ),
        Expr::IfElse(pred, if_true, if_false) => {
            let third = "else"@ + written(src, p, *if_false, rest);
            let second = "then"@ + written(src, p, *if_true, third);
            "if "@ + written(src, p, *pred, second)
        },
        Expr::Match(value, alts) => "match "@ + written(
            src,
            p,
            *value,
            " with"@ + written_alternatives(src, p, alts@, alts@.len(), rest),
        ),
        Expr::Infix(lhs, op, rhs) => written(
            src,
            p,
            *lhs,
            op.value.name@ + (" "@ + written(src, p, *rhs, rest)),
        ),
        Expr::Projection(value, field, _) => written(
            src,
            p,
            *value,
            "."@ + written_name(field@, rest),
        ),
        Expr::Array(_, exprs) => "["@ + written_elems(src, p, exprs@, exprs@.len(), "]"@ + rest),
        Expr::Record { typ: _, types, exprs, base } => {
            let items = entries(types@, exprs@, 0, 0);
            let extended = match base {
                Some(base) => if items.len() > 0 {
                    ","@ + (".."@ + written(src, p, *base, "}"@ + rest))
                } else {
                    ".."@ + written(src, p, *base, "}"@ + rest)
                },
                None => "}"@ + rest,
            };
            "{"@ + written_entries(src, p, types@, exprs@, items, items.len(), extended)
        },
        Expr::Tuple { typ: _, elems } => "("@ + written_elems(
            src,
            p,
            elems@,
            elems@.len(),
            ")"@ + rest,
        ),
        Expr::LetBindings(binds, body) => written_bindings(
            src,
            p,
            binds@,
            binds@.len(),
            written(src, p, *body, rest),
        ),
        Expr::TypeBindings(binds, body) => text_of(
            comment_doc(binds@[0].comment),
            written_type_bindings(p, binds@, binds@.len(), written(src, p, *body, rest)),
        ),
        Expr::Block(exprs) => if exprs@.len() == 1 {
            "("@ + written(src, p, exprs@[0], ")"@ + rest)
        } else {
            written_all(src, p, exprs@, exprs@.len(), rest)
        },
        Expr::Do(do_expr) => {
            let body = written(src, p, *do_expr.body, rest);
            "do"@ + written_name(
                do_expr.id.value.name@,
                "="@ + written(src, p, *do_expr.bound, body),
            )
        },
        Expr::Error => "<error>"@ + rest,
    }
}

/// All of `comments` are line breaks.
pub open spec fn is_blank(comments: Seq<Seq<char>>) -> bool {
    forall|i: int| 0 <= i < comments.len() ==> (#[trigger] comments[i]).len() == 0
}

/// No comment begins in `text`.
pub open spec fn is_bare(text: Seq<char>) -> bool {
    forall|from: int| is_blank((#[trigger] comments_from(text, from)).0)
}

/// There is no comment anywhere in `src`.
pub open spec fn has_no_comments(src: Seq<char>) -> bool {
    forall|start: int, end: int|
        (#[trigger] slice(src, start, end)) matches Some(text) ==> is_bare(text)
}

/// How texts are put together.
proof fn texts_add_up()
    ensures
        forall|a: DocTree, b: DocTree, rest: Seq<char>| #[trigger]
            text_of(a.then_doc(b), rest) == text_of(a, text_of(b, rest)),
{
    assert forall|a: DocTree, b: DocTree, rest: Seq<char>| #[trigger]
        text_of(a.then_doc(b), rest) == text_of(a, text_of(b, rest)) by {
        assert(text_of(DocTree::Append(Box::new(a), Box::new(b)), rest) == text_of(
            a,
            text_of(b, rest),
        ));
    }
}

/// `doc` has no text.
spec fn is_empty(doc: DocTree) -> bool {
    forall|rest: Seq<char>| #[trigger] text_of(doc, rest) == rest
}

/// What two documents make together.
proof fn joins(a: Option<DocTree>, b: Option<DocTree>, rest: Seq<char>)
    ensures
        cat(a, b) is Some ==> a is Some && b is Some && text_of(cat(a, b)->0, rest) == text_of(
            a->0,
            text_of(b->0, rest),
        ),
{
    texts_add_up();
}

proof fn wraps(a: Option<DocTree>, rest: Seq<char>)
    ensures
        grouped(a) is Some <==> a is Some,
        nested(a) is Some <==> a is Some,
        a is Some ==> text_of(grouped(a)->0, rest) == text_of(a->0, rest),
        a is Some ==> text_of(nested(a)->0, rest) == text_of(a->0, rest),
{
}

proof fn name_is_kept(name: Seq<char>)
    ensures
        forall|rest: Seq<char>| #[trigger]
            text_of(ident_doc(name), rest) == written_name(name, rest),
{
    texts_add_up();
}

proof fn pattern_is_kept(pattern: SpannedPattern)
    ensures
        forall|rest: Seq<char>| #[trigger]
            text_of(pattern_doc(pattern), rest) == written_pattern(pattern, rest),
    decreases pattern, 0nat,
{
    match pattern.value {
        Pattern::As(id, inner) => {
            pattern_is_kept(*inner);
            let start = DocTree::Text(id@).then_text("@"@);
            assert forall|rest: Seq<char>| #[trigger]
                text_of(pattern_doc(pattern), rest) == written_pattern(pattern, rest) by {
                joins(Some(start), Some(pattern_doc(*inner)), rest);
                joins(
                    Some(DocTree::Text(id@)),
                    Some(DocTree::Text("@"@)),
                    text_of(pattern_doc(*inner), rest),
                );
            }
        },
        Pattern::Constructor(ctor, args) => {
            pattern_args_are_kept(args@, args@.len());
            assert forall|rest: Seq<char>| #[trigger]
                text_of(pattern_doc(pattern), rest) == written_pattern(pattern, rest) by {
                joins(
                    Some(DocTree::Text(ctor.name@)),
                    Some(pattern_args_doc(args@, args@.len())),
                    rest,
                );
            }
        },
        Pattern::Ident(id) => name_is_kept(id.name@),
        Pattern::Record { typ: _, types, fields } => {
            pattern_types_are_kept(types@, types@.len());
            let first = pattern_types_doc(types@, types@.len());
            pattern_fields_are_kept(fields@, fields@.len(), first, types@.len() == 0);
            let all = pattern_fields_doc(fields@, fields@.len(), first, types@.len() == 0);
            let space = if types@.len() == 0 && fields@.len() == 0 {
                DocTree::Nil
            } else {
                DocTree::Space
            };
            let start = DocTree::Text("{"@).then_doc(all.nest());
            assert(pattern_doc(pattern) == start.then_doc(space).then_text("}"@));
            assert forall|rest: Seq<char>| #[trigger]
                text_of(pattern_doc(pattern), rest) == written_pattern(pattern, rest) by {
                let tail = "}"@ + rest;
                joins(Some(start.then_doc(space)), Some(DocTree::Text("}"@)), rest);
                joins(Some(start), Some(space), tail);
                joins(Some(DocTree::Text("{"@)), Some(all.nest()), tail);
                wraps(Some(all), tail);
            }
        },
        Pattern::Tuple { typ: _, elems } => {
            patterns_are_kept(elems@, elems@.len());
            let all = pattern_elems_doc(elems@, elems@.len());
            let start = DocTree::Text("("@).then_doc(all);
            assert(pattern_doc(pattern) == start.then_text(")"@).group());
            assert forall|rest: Seq<char>| #[trigger]
                text_of(pattern_doc(pattern), rest) == written_pattern(pattern, rest) by {
                wraps(Some(start.then_text(")"@)), rest);
                joins(Some(start), Some(DocTree::Text(")"@)), rest);
                joins(Some(DocTree::Text("("@)), Some(all), ")"@ + rest);
            }
        },
        Pattern::Error => {},
    }
}

proof fn pattern_args_are_kept(args: Seq<SpannedPattern>, n: nat)
    ensures
        forall|rest: Seq<char>| #[trigger]
            text_of(pattern_args_doc(args, n), rest) == written_pattern_args(args, n, rest),
    decreases args, n,
{
    texts_add_up();
    if 0 < n <= args.len() {
        pattern_args_are_kept(args, (n - 1) as nat);
        pattern_is_kept(args[n - 1]);
    }
}

proof fn patterns_are_kept(elems: Seq<SpannedPattern>, n: nat)
    ensures
        forall|rest: Seq<char>| #[trigger]
            text_of(pattern_elems_doc(elems, n), rest) == written_patterns(elems, n, rest),
    decreases elems, n,
{
    texts_add_up();
    if 0 < n <= elems.len() {
        patterns_are_kept(elems, (n - 1) as nat);
        pattern_is_kept(elems[n - 1]);
    }
}

proof fn pattern_types_are_kept(types: Seq<PatternTypeField>, n: nat)
    ensures
        forall|rest: Seq<char>| #[trigger]
            text_of(pattern_types_doc(types, n), rest) == written_pattern_types(types, n, rest),
    decreases n,
{
    texts_add_up();
    if 0 < n <= types.len() {
        pattern_types_are_kept(types, (n - 1) as nat);
    }
}

proof fn pattern_fields_are_kept(fields: Seq<PatternField>, n: nat, doc: DocTree, first: bool)
    ensures
        forall|rest: Seq<char>| #[trigger]
            text_of(pattern_fields_doc(fields, n, doc, first), rest) == text_of(
                doc,
                written_pattern_fields(fields, n, first, rest),
            ),
    decreases fields, n,
{
    texts_add_up();
    if 0 < n <= fields.len() {
        pattern_fields_are_kept(fields, (n - 1) as nat, doc, first);
        name_is_kept(fields[n - 1].name.value@);
        if let Some(pattern) = fields[n - 1].value {
            pattern_is_kept(pattern);
        }
    }
}

proof fn idents_are_kept(idents: Seq<SpannedIdent>, n: nat)
    ensures
        forall|rest: Seq<char>| #[trigger]
            text_of(idents_doc(idents, n), rest) == written_idents(idents, n, rest),
    decreases n,
{
    texts_add_up();
    if 0 < n <= idents.len() {
        idents_are_kept(idents, (n - 1) as nat);
    }
}

proof fn params_are_kept(params: Seq<GenericTy>, n: nat)
    ensures
        forall|rest: Seq<char>| #[trigger]
            text_of(alias_params_doc(params, n), rest) == written_params(params, n, rest),
    decreases n,
{
    if 0 < n <= params.len() {
        params_are_kept(params, (n - 1) as nat);
        let param = params[n - 1];
        let before = alias_params_doc(params, (n - 1) as nat);
        let kind = kind_doc(Prec::Top, kind_in(param.kind)).group();
        let one = DocTree::Text("("@).then_text(param.id);
        let two = one.then_text(" :"@);
        let three = two.then_doc(DocTree::Space);
        let four = three.then_doc(kind);
        let own = if !(kind_in(param.kind) is Type) && !(kind_in(param.kind) is Hole) {
            four.then_text(")"@).group()
        } else {
            DocTree::Text(param.id)
        };
        assert(alias_params_doc(params, n) == before.then_doc(own.then_doc(DocTree::Space)));
        assert forall|rest: Seq<char>| #[trigger]
            text_of(alias_params_doc(params, n), rest) == written_params(params, n, rest) by {
            joins(Some(before), Some(own.then_doc(DocTree::Space)), rest);
            joins(Some(own), Some(DocTree::Space), rest);
            if !(kind_in(param.kind) is Type) && !(kind_in(param.kind) is Hole) {
                let tail = ")"@ + rest;
                let inner = text_of(kind, tail);
                wraps(Some(four.then_text(")"@)), rest);
                joins(Some(four), Some(DocTree::Text(")"@)), rest);
                joins(Some(three), Some(kind), tail);
                joins(Some(two), Some(DocTree::Space), inner);
                joins(Some(one), Some(DocTree::Text(" :"@)), inner);
                joins(
                    Some(DocTree::Text("("@)),
                    Some(DocTree::Text(param.id)),
                    " :"@ + inner,
                );
            }
        }
    }
}

proof fn blanks_are_empty(comments: Seq<Seq<char>>, n: nat)
    requires
        is_blank(comments),
    ensures
        is_empty(comments_tree(comments, n).0),
        comments_tree(comments, n).1 == 0,
    decreases n,
{
    texts_add_up();
    if 0 < n <= comments.len() {
        blanks_are_empty(comments, (n - 1) as nat);
    }
}

proof fn blank_lines_are_empty(comments: Seq<Seq<char>>, from: int)
    requires
        is_blank(comments),
        0 <= from,
    ensures
        is_empty(line_comments_tree(comments, from)),
    decreases comments.len() - from,
{
    texts_add_up();
    if from < comments.len() {
        blank_lines_are_empty(comments, from + 1);
    }
}

/// A separator without comments has no text.
proof fn separator_is_empty(comments: Seq<Seq<char>>, default: DocTree)
    requires
        is_blank(comments),
        is_empty(default),
    ensures
        is_empty(separator(comments, default)),
{
    texts_add_up();
    blanks_are_empty(comments, comments.len());
}

/// What stands between two parts has no text.
proof fn gap_is_empty(src: Seq<char>, start: int, end: int, default: DocTree)
    requires
        has_no_comments(src),
        is_empty(default),
    ensures
        gap_doc(src, start, end) matches Some(doc) ==> is_empty(doc),
        gap_or(src, start, end, default) matches Some(doc) ==> is_empty(doc),
        gap_behind_doc(src, start, end) matches Some(doc) ==> is_empty(doc),
        separator_in(src, start, end, default) matches Some(doc) ==> is_empty(doc),
        lead_doc(src, start, end, default) matches Some(doc) ==> is_empty(doc),
{
    texts_add_up();
    if let Some(text) = slice(src, start, end) {
        let leading = leading_comments(text);
        let trailing = trailing_comments(text);
        let from = comments_from(text, 0).1 + 1;
        assert(is_blank(comments_from(text, 0).0));
        assert(is_blank(comments_from(text, from).0));
        blanks_are_empty(leading, leading.len());
        blank_lines_are_empty(trailing, 0);
        separator_is_empty(leading, default);
    }
}

proof fn entries_are_ordered(types: Seq<ExprTypeField>, exprs: Seq<ExprField>, i: int, j: int)
    ensures
        entries(types, exprs, i, j) == ordered(types, exprs, i, j),
    decreases types.len() - i + exprs.len() - j,
{
    if 0 <= i <= types.len() && 0 <= j <= exprs.len() && (i < types.len() || j < exprs.len()) {
        if i < types.len() {
            entries_are_ordered(types, exprs, i + 1, j);
        }
        if j < exprs.len() {
            entries_are_ordered(types, exprs, i, j + 1);
        }
    }
}

proof fn args_are_kept(src: Seq<char>, p: &Printer, exprs: Seq<SpannedExpr>, n: nat, end: int)
    requires
        has_no_comments(src),
    ensures
        args_doc(src, p, end, exprs, n) matches Some(doc) ==> forall|rest: Seq<char>| #[trigger]
            text_of(doc, rest) == written_all(src, p, exprs, n, rest),
    decreases exprs, n,
{
    if 0 < n <= exprs.len() {
        args_are_kept(src, p, exprs, (n - 1) as nat, end);
        own_is_kept(src, p, exprs[n - 1]);
        let prev = if n == 1 {
            end
        } else {
            exprs[n - 2].span.end.0 as int
        };
        let start = exprs[n - 1].span.start.0 as int;
        gap_is_empty(src, prev, start, DocTree::Space);
        let before = args_doc(src, p, end, exprs, (n - 1) as nat);
        let gap = gap_or(src, prev, start, DocTree::Space);
        let own = own_doc(src, p, exprs[n - 1]);
        let whole = args_doc(src, p, end, exprs, n);
        assert(whole == cat(before, cat(gap, own)));
        if whole is Some {
            assert forall|rest: Seq<char>| #[trigger]
                text_of(whole->0, rest) == written_all(src, p, exprs, n, rest) by {
                joins(before, cat(gap, own), rest);
                joins(gap, own, rest);
            }
        }
    }
}

proof fn lines_are_kept(src: Seq<char>, p: &Printer, exprs: Seq<SpannedExpr>, n: nat)
    requires
        has_no_comments(src),
    ensures
        lines_doc(src, p, exprs, n) matches Some(doc) ==> forall|rest: Seq<char>| #[trigger]
            text_of(doc, rest) == written_all(src, p, exprs, n, rest),
    decreases exprs, n,
{
    if 0 < n <= exprs.len() {
        lines_are_kept(src, p, exprs, (n - 1) as nat);
        own_is_kept(src, p, exprs[n - 1]);
        let before = lines_doc(src, p, exprs, (n - 1) as nat);
        let own = own_doc(src, p, exprs[n - 1]);
        let whole = lines_doc(src, p, exprs, n);
        let (prev, start) = (exprs[n - 2].span.end.0 as int, exprs[n - 1].span.start.0 as int);
        let gap = separator_in(src, prev, start, DocTree::Newline);
        gap_is_empty(src, prev, start, DocTree::Newline);
        if n > 1 {
            assert(whole == cat(cat(before, gap), grouped(own)));
        } else {
            assert(whole == cat(before, grouped(own)));
        }
        if whole is Some {
            assert forall|rest: Seq<char>| #[trigger]
                text_of(whole->0, rest) == written_all(src, p, exprs, n, rest) by {
                wraps(own, rest);
                if n > 1 {
                    joins(cat(before, gap), grouped(own), rest);
                    joins(before, gap, text_of(own->0, rest));
                } else {
                    joins(before, grouped(own), rest);
                }
            }
        }
    }
}

proof fn elems_are_kept(src: Seq<char>, p: &Printer, exprs: Seq<SpannedExpr>, n: nat)
    requires
        has_no_comments(src),
    ensures
        elems_doc(src, p, exprs, n) matches Some(doc) ==> forall|rest: Seq<char>| #[trigger]
            text_of(doc, rest) == written_elems(src, p, exprs, n, rest),
    decreases exprs, n,
{
    if 0 < n <= exprs.len() {
        elems_are_kept(src, p, exprs, (n - 1) as nat);
        own_is_kept(src, p, exprs[n - 1]);
        let before = elems_doc(src, p, exprs, (n - 1) as nat);
        let own = own_doc(src, p, exprs[n - 1]);
        let whole = elems_doc(src, p, exprs, n);
        let comma = DocTree::Text(","@).then_doc(DocTree::Space);
        if n > 1 {
            assert(whole == cat(cat(before, Some(comma)), own));
        } else {
            assert(whole == cat(before, own));
        }
        if whole is Some {
            assert forall|rest: Seq<char>| #[trigger]
                text_of(whole->0, rest) == written_elems(src, p, exprs, n, rest) by {
                if n > 1 {
                    let inner = text_of(own->0, rest);
                    joins(cat(before, Some(comma)), own, rest);
                    joins(before, Some(comma), inner);
                    joins(Some(DocTree::Text(","@)), Some(DocTree::Space), inner);
                } else {
                    joins(before, own, rest);
                }
            }
        }
    }
}

proof fn alternatives_are_kept(src: Seq<char>, p: &Printer, alts: Seq<Alternative>, n: nat)
    requires
        has_no_comments(src),
    ensures
        alternatives_doc(src, p, alts, n) matches Some(doc) ==> forall|rest: Seq<char>| #[trigger]
            text_of(doc, rest) == written_alternatives(src, p, alts, n, rest),
    decreases alts, n,
{
    if 0 < n <= alts.len() {
        let pattern = pattern_doc(alts[n - 1].pattern);
        alternatives_are_kept(src, p, alts, (n - 1) as nat);
        pattern_is_kept(alts[n - 1].pattern);
        hang_is_kept(src, p, Some(DocTree::Nil), alts[n - 1].expr);
        let before = alternatives_doc(src, p, alts, (n - 1) as nat);
        let alt = DocTree::Text("| "@).then_doc(pattern).then_text(" ->"@);
        let value = hang_doc(src, p, Some(DocTree::Nil), alts[n - 1].expr);
        let whole = alternatives_doc(src, p, alts, n);
        let own = cat(Some(alt), grouped(value));
        if n > 1 {
            assert(whole == cat(cat(before, Some(DocTree::Newline)), own));
        } else {
            assert(whole == cat(before, own));
        }
        if whole is Some {
            assert forall|rest: Seq<char>| #[trigger]
                text_of(whole->0, rest) == written_alternatives(src, p, alts, n, rest) by {
                let inner = text_of(value->0, rest);
                let here = text_of(own->0, rest);
                wraps(value, rest);
                joins(Some(alt), grouped(value), rest);
                joins(
                    Some(DocTree::Text("| "@).then_doc(pattern)),
                    Some(DocTree::Text(" ->"@)),
                    inner,
                );
                joins(Some(DocTree::Text("| "@)), Some(pattern), " ->"@ + inner);
                if n > 1 {
                    joins(cat(before, Some(DocTree::Newline)), own, rest);
                    joins(before, Some(DocTree::Newline), here);
                } else {
                    joins(before, own, rest);
                }
            }
        }
    }
}

proof fn annotation_is_kept(p: &Printer, bind: ValueBinding, rest: Seq<char>)
    ensures
        binding_type_doc(p, bind) matches Some(doc) ==> text_of(doc, rest) == written_annotation(
            p,
            bind,
            rest,
        ),
{
    if let Some(typ) = bind.typ {
        if !(typ.typ@ is Hole) {
            let written = maybe_type(p, typ, typ.typ@);
            joins(cat(text_doc(": "@), written), Some(DocTree::Space), rest);
            joins(text_doc(": "@), written, rest);
        }
    }
}

proof fn binding_is_kept(
    src: Seq<char>,
    p: &Printer,
    word: Seq<char>,
    bind: ValueBinding,
    rest: Seq<char>,
)
    requires
        has_no_comments(src),
    ensures
        binding_doc(src, p, word, bind) matches Some(doc) ==> text_of(doc, rest) == text_of(
            comment_doc(bind.comment),
            word + written_pattern(
                bind.name,
                " "@ + written_idents(
                    bind.args@,
                    bind.args@.len(),
                    written_annotation(p, bind, "="@ + written(src, p, bind.expr, rest)),
                ),
            ),
        ),
    decreases bind, 0nat,
{
    let args = idents_doc(bind.args@, bind.args@.len());
    let pattern = pattern_doc(bind.name);
    let name = pattern.then_text(" "@).then_doc(args).group();
    let typ = binding_type_doc(p, bind);
    let head = cat(Some(DocTree::Text(word).then_doc(name)), typ);
    let decl = cat_text(head, "="@);
    let value = hang_doc(src, p, decl, bind.expr);
    pattern_is_kept(bind.name);
    idents_are_kept(bind.args@, bind.args@.len());
    hang_is_kept(src, p, decl, bind.expr);
    assert(binding_doc(src, p, word, bind) == cat(
        Some(comment_doc(bind.comment)),
        grouped(value),
    ));
    if binding_doc(src, p, word, bind) is Some {
        let last = written(src, p, bind.expr, rest);
        let from_typ = text_of(typ->0, "="@ + last);
        joins(Some(comment_doc(bind.comment)), grouped(value), rest);
        wraps(value, rest);
        joins(head, Some(DocTree::Text("="@)), last);
        joins(Some(DocTree::Text(word).then_doc(name)), typ, "="@ + last);
        annotation_is_kept(p, bind, "="@ + last);
        joins(Some(DocTree::Text(word)), Some(name), from_typ);
        wraps(Some(pattern.then_text(" "@).then_doc(args)), from_typ);
        joins(Some(pattern.then_text(" "@)), Some(args), from_typ);
        joins(Some(pattern), Some(DocTree::Text(" "@)), text_of(args, from_typ));
    }
}

proof fn bindings_are_kept(src: Seq<char>, p: &Printer, binds: Seq<ValueBinding>, n: nat)
    requires
        has_no_comments(src),
    ensures
        bindings_doc(src, p, binds, n) matches Some(doc) ==> forall|rest: Seq<char>| #[trigger]
            text_of(doc, rest) == written_bindings(src, p, binds, n, rest),
    decreases binds, n,
{
    if 0 < n <= binds.len() {
        let bind = binds[n - 1];
        let word = if n == 1 {
            "let "@
        } else {
            "and "@
        };
        bindings_are_kept(src, p, binds, (n - 1) as nat);
        let before = bindings_doc(src, p, binds, (n - 1) as nat);
        let own = binding_doc(src, p, word, bind);
        let whole = bindings_doc(src, p, binds, n);
        let (prev, start) = (binds[n - 2].expr.span.end.0 as int, bind.name.span.start.0 as int);
        let gap = gap_doc(src, prev, start);
        gap_is_empty(src, prev, start, DocTree::Nil);
        if n > 1 {
            assert(whole == cat(cat(before, gap), own));
        } else {
            assert(whole == cat(before, own));
        }
        if whole is Some {
            assert forall|rest: Seq<char>| #[trigger]
                text_of(whole->0, rest) == written_bindings(src, p, binds, n, rest) by {
                binding_is_kept(src, p, word, bind, rest);
                if n > 1 {
                    joins(cat(before, gap), own, rest);
                    joins(before, gap, text_of(own->0, rest));
                } else {
                    joins(before, own, rest);
                }
            }
        }
    }
}

proof fn type_binding_is_kept(p: &Printer, word: Seq<char>, bind: TypeBinding, rest: Seq<char>)
    ensures
        type_binding_doc(p, word, bind) matches Some(doc) ==> text_of(doc, rest) == word + (" "@ + (
        bind.name.value@ + (" "@ + written_params(
            bind.alias.value@.params,
            bind.alias.value@.params.len(),
            "= "@ + written_type(p, bind.aliased_type, bind.alias.value@.typ, rest),
        )))),
{
    let data = bind.alias.value@;
    params_are_kept(data.params, data.params.len());
    let params = alias_params_doc(data.params, data.params.len());
    let written = maybe_type(p, bind.aliased_type, data.typ);
    let typ = if data.typ is Record {
        written
    } else {
        nested(written)
    };
    let one = DocTree::Text(word).then_text(" "@);
    let two = one.then_text(bind.name.value@);
    let three = two.then_text(" "@);
    let head = three.then_doc(params.group());
    let tail = grouped(cat(text_doc("= "@), typ));
    assert(type_binding_doc(p, word, bind) == grouped(cat(Some(head), tail)));
    if type_binding_doc(p, word, bind) is Some {
        let last = text_of(tail->0, rest);
        wraps(cat(Some(head), tail), rest);
        joins(Some(head), tail, rest);
        wraps(cat(text_doc("= "@), typ), rest);
        joins(text_doc("= "@), typ, rest);
        wraps(written, rest);
        joins(Some(three), Some(params.group()), last);
        wraps(Some(params), last);
        let third = text_of(params, last);
        joins(Some(two), Some(DocTree::Text(" "@)), third);
        joins(Some(one), Some(DocTree::Text(bind.name.value@)), " "@ + third);
        joins(
            Some(DocTree::Text(word)),
            Some(DocTree::Text(" "@)),
            bind.name.value@ + (" "@ + third),
        );
    }
}

proof fn type_bindings_are_kept(src: Seq<char>, p: &Printer, binds: Seq<TypeBinding>, n: nat)
    requires
        has_no_comments(src),
    ensures
        type_bindings_doc(src, p, binds, n) matches Some(doc) ==> forall|rest: Seq<char>| #[trigger]
            text_of(doc, rest) == written_type_bindings(p, binds, n, rest),
    decreases n,
{
    if 0 < n <= binds.len() {
        let bind = binds[n - 1];
        let word = if n == 1 {
            "type"@
        } else {
            "and"@
        };
        type_bindings_are_kept(src, p, binds, (n - 1) as nat);
        let before = type_bindings_doc(src, p, binds, (n - 1) as nat);
        let own = type_binding_doc(p, word, bind);
        let whole = type_bindings_doc(src, p, binds, n);
        let (prev, start) = (binds[n - 2].alias.span.end.0 as int, bind.name.span.start.0 as int);
        let gap = gap_doc(src, prev, start);
        gap_is_empty(src, prev, start, DocTree::Nil);
        if n > 1 {
            assert(whole == cat(cat(before, gap), own));
        } else {
            assert(whole == cat(before, own));
        }
        if whole is Some {
            assert forall|rest: Seq<char>| #[trigger]
                text_of(whole->0, rest) == written_type_bindings(p, binds, n, rest) by {
                type_binding_is_kept(p, word, bind, rest);
                if n > 1 {
                    joins(cat(before, gap), own, rest);
                    joins(before, gap, text_of(own->0, rest));
                } else {
                    joins(before, own, rest);
                }
            }
        }
    }
}

proof fn entry_is_kept(
    src: Seq<char>,
    p: &Printer,
    types: Seq<ExprTypeField>,
    exprs: Seq<ExprField>,
    item: Item,
)
    requires
        has_no_comments(src),
    ensures
        item_doc(src, p, types, exprs, item) matches Some(doc) ==> forall|rest: Seq<char>| #[trigger]
            text_of(doc, rest) == written_entry(src, p, types, exprs, item, rest),
    decreases exprs, 0nat,
{
    texts_add_up();
    match item {
        Item::Type(i) => name_is_kept(types[i as int].name.value@),
        Item::Field(j) => if j < exprs.len() {
            let field = exprs[j as int];
            name_is_kept(field.name.value@);
            if let Some(expr) = field.value {
                if let Some(text) = slice(
                    src,
                    field.name.span.end.0 as int,
                    expr.span.start.0 as int,
                ) {
                    let from = comments_from(text, 0).1 + 1;
                    assert(is_blank(comments_from(text, 0).0));
                    assert(is_blank(comments_from(text, from).0));
                    let before = leading_comments(text);
                    let behind = trailing_comments(text);
                    blanks_are_empty(before, before.len());
                    blanks_are_empty(behind, behind.len());
                    let head = field_head(ident_doc(field.name.value@), text);
                    assert(decreases_to!(exprs => exprs[j as int]));
                    hang_is_kept(src, p, Some(head), expr);
                }
            }
        },
    }
}

#[verifier::rlimit(30)]
proof fn entries_are_kept(
    src: Seq<char>,
    p: &Printer,
    types: Seq<ExprTypeField>,
    exprs: Seq<ExprField>,
    items: Seq<Item>,
    line: DocTree,
    n: nat,
)
    requires
        has_no_comments(src),
        is_empty(line),
    ensures
        items_doc(src, p, types, exprs, items, line, n) matches Some(doc) ==> forall|
            rest: Seq<char>,
        | #[trigger]
            text_of(doc, rest) == written_entries(src, p, types, exprs, items, n, rest),
    decreases exprs, n + 1,
{
    texts_add_up();
    if 0 < n <= items.len() {
        entries_are_kept(src, p, types, exprs, items, line, (n - 1) as nat);
        entry_is_kept(src, p, types, exprs, items[n - 1]);
        if n > 1 {
            let (start, end) = (
                item_span(types, exprs, items[n - 2]).1,
                item_span(types, exprs, items[n - 1]).0,
            );
            gap_is_empty(src, start, end, DocTree::Nil);
        }
    }
}

proof fn record_is_kept(src: Seq<char>, p: &Printer, prev: int, expr: SpannedExpr)
    requires
        has_no_comments(src),
        expr.value is Record,
    ensures
        lambda_doc(src, p, prev, expr) matches Some((head, body)) ==> forall|rest: Seq<char>|
            text_of(head, #[trigger] text_of(body, rest)) == written(src, p, expr, rest),
    decreases expr, 0nat,
{
    if let Expr::Record { typ: _, types, exprs, base } = expr.value {
        let items = ordered(types@, exprs@, 0, 0);
        let n = items.len();
        entries_are_ordered(types@, exprs@, 0, 0);
        if let Some(any) = any_gap(src, types@, exprs@, items, (n - 1) as nat) {
            let line = if any {
                DocTree::Newline
            } else {
                newline_doc(expr)
            };
            let end = if n == 0 {
                expr.span.start.0 as int
            } else {
                item_span(types@, exprs@, items[n - 1]).1
            };
            let first = item_span(types@, exprs@, items[0]).0;
            let last = expr.span.end.0 as int;
            let start = if n == 0 {
                Some(DocTree::Nil)
            } else {
                lead_doc(src, expr.span.start.0 + 1, first, line)
            };
            gap_is_empty(src, expr.span.start.0 + 1, first, line);
            gap_is_empty(src, end + 1, last, line);
            gap_is_empty(src, end, last, line);
            entries_are_kept(src, p, types@, exprs@, items, line, n);
            let all = items_doc(src, p, types@, exprs@, items, line, n);
            let fields = cat(start, all);
            let close = if n == 0 && end < expr.span.end.0 {
                lead_doc(src, end + 1, last, line)
            } else {
                gap_or(src, end, last, line)
            };
            let from = if n == 0 {
                expr.span.start.0 + 1
            } else {
                end
            };
            let record = match base {
                None => cat(nested(fields), close),
                Some(base) => cat(
                    nested(cat(fields, base_doc(src, p, from, n > 0, line, *base))),
                    separator_in(src, base.span.end.0 as int, last, line),
                ),
            };
            let body = cat_text(grouped(record), "}"@);
            if body is Some {
                assert(lambda_doc(src, p, prev, expr) == Some((DocTree::Text("{"@), body->0)));
                if let Some(base) = base {
                    base_is_kept(src, p, from, n > 0, line, *base);
                    gap_is_empty(src, base.span.end.0 as int, last, line);
                }
                assert forall|rest: Seq<char>| text_of(
                    DocTree::Text("{"@),
                    #[trigger] text_of(body->0, rest),
                ) == written(src, p, expr, rest) by {
                    let tail = "}"@ + rest;
                    joins(grouped(record), Some(DocTree::Text("}"@)), rest);
                    wraps(record, tail);
                    match base {
                        None => {
                            joins(nested(fields), close, tail);
                            wraps(fields, tail);
                            joins(start, all, tail);
                        },
                        Some(base) => {
                            let extended = base_doc(src, p, from, n > 0, line, *base);
                            let gap = separator_in(src, base.span.end.0 as int, last, line);
                            joins(nested(cat(fields, extended)), gap, tail);
                            wraps(cat(fields, extended), tail);
                            joins(fields, extended, tail);
                            joins(start, all, text_of(extended->0, tail));
                        },
                    }
                }
            }
        }
    }
}

proof fn base_is_kept(
    src: Seq<char>,
    p: &Printer,
    from: int,
    comma: bool,
    line: DocTree,
    base: SpannedExpr,
)
    requires
        has_no_comments(src),
        is_empty(line),
    ensures
        base_doc(src, p, from, comma, line, base) matches Some(doc) ==> forall|rest: Seq<char>|
            #[trigger] text_of(doc, rest) == if comma {
                ","@ + (".."@ + written(src, p, base, rest))
            } else {
                ".."@ + written(src, p, base, rest)
            },
    decreases base, 5nat,
{
    texts_add_up();
    own_is_kept(src, p, base);
    if let Some(text) = slice(src, from, base.span.start.0 as int) {
        let (first, second, third) = base_comments(text);
        let end = comments_from(text, 0).1;
        let dots = if end < text.len() && text[end] == ',' {
            comments_from(text, end + 1).1
        } else {
            end
        };
        assert(is_blank(comments_from(text, 0).0));
        assert(is_blank(comments_from(text, end + 1).0));
        assert(is_blank(comments_from(text, dots + 2).0));
        blanks_are_empty(first, first.len());
        separator_is_empty(second, line);
        separator_is_empty(third, DocTree::Space);
    }
}

proof fn lambda_is_kept(src: Seq<char>, p: &Printer, prev: int, expr: SpannedExpr)
    requires
        has_no_comments(src),
        expr.value is Lambda,
    ensures
        lambda_doc(src, p, prev, expr) matches Some((head, body)) ==> forall|rest: Seq<char>|
            text_of(head, #[trigger] text_of(body, rest)) == written(src, p, expr, rest),
    decreases expr, 0nat,
{
    if let Expr::Lambda(lambda) = expr.value {
        hanging_is_kept(src, p, prev, *lambda.body);
        idents_are_kept(lambda.args@, lambda.args@.len());
        let args = idents_doc(lambda.args@, lambda.args@.len());
        let start = DocTree::Text("\\"@).then_doc(args);
        let decl = start.then_text("->"@);
        if let Some((next, body)) = hanging_doc(src, p, prev, *lambda.body) {
            let head = if next is Nil {
                decl
            } else {
                decl.then_doc(DocTree::Space).then_doc(next)
            };
            assert(lambda_doc(src, p, prev, expr) == Some((head, body)));
            assert forall|rest: Seq<char>| text_of(head, #[trigger] text_of(body, rest)) == written(
                src,
                p,
                expr,
                rest,
            ) by {
                let last = text_of(body, rest);
                let behind = text_of(next, last);
                if !(next is Nil) {
                    joins(Some(decl.then_doc(DocTree::Space)), Some(next), last);
                    joins(Some(decl), Some(DocTree::Space), behind);
                }
                joins(Some(start), Some(DocTree::Text("->"@)), behind);
                joins(Some(DocTree::Text("\\"@)), Some(args), "->"@ + behind);
            }
        }
    }
}

/// The head and the body of an expression hold all of it.
proof fn hanging_is_kept(src: Seq<char>, p: &Printer, prev: int, expr: SpannedExpr)
    requires
        has_no_comments(src),
    ensures
        hanging_doc(src, p, prev, expr) matches Some((head, body)) ==> forall|rest: Seq<char>|
            text_of(head, #[trigger] text_of(body, rest)) == written(src, p, expr, rest),
    decreases expr, 4nat,
{
    match expr.value {
        Expr::Lambda(_) => {
            lambda_is_kept(src, p, prev, expr);
            assert(hanging_doc(src, p, prev, expr) == lambda_doc(src, p, prev, expr));
        },
        Expr::Record { .. } => {
            record_is_kept(src, p, prev, expr);
            assert(hanging_doc(src, p, prev, expr) == lambda_doc(src, p, prev, expr));
        },
        _ => {
            expr_is_kept(src, p, prev, expr);
            let own = expr_doc(src, p, prev, expr);
            let whole = cat(Some(newline_doc(expr)), own);
            if let Some(body) = whole {
                assert(hanging_doc(src, p, prev, expr) == Some((DocTree::Nil, body)));
                assert forall|rest: Seq<char>| text_of(
                    DocTree::Nil,
                    #[trigger] text_of(body, rest),
                ) == written(src, p, expr, rest) by {
                    joins(Some(newline_doc(expr)), own, rest);
                }
            }
        },
    }
}

proof fn hang_is_kept(src: Seq<char>, p: &Printer, from: Option<DocTree>, expr: SpannedExpr)
    requires
        has_no_comments(src),
    ensures
        hang_doc(src, p, from, expr) matches Some(doc) ==> from is Some && forall|rest: Seq<char>|
            #[trigger] text_of(doc, rest) == text_of(from->0, written(src, p, expr, rest)),
    decreases expr, 5nat,
{
    hanging_is_kept(src, p, expr.span.start.0 as int, expr);
    if let Some((head, body)) = hanging_doc(src, p, expr.span.start.0 as int, expr) {
        let first = if head is Nil {
            DocTree::Nil
        } else {
            DocTree::Space
        };
        let tail = match expr.value {
            Expr::Record { .. } => body,
            _ => body.nest(),
        };
        let start = cat(from, Some(first));
        let whole = hang_doc(src, p, from, expr);
        assert(whole == grouped(cat(grouped(cat(start, Some(head))), Some(tail))));
        if whole is Some {
            assert forall|rest: Seq<char>| #[trigger]
                text_of(whole->0, rest) == text_of(from->0, written(src, p, expr, rest)) by {
                let last = text_of(body, rest);
                assert(text_of(tail, rest) == last);
                wraps(cat(grouped(cat(start, Some(head))), Some(tail)), rest);
                joins(grouped(cat(start, Some(head))), Some(tail), rest);
                wraps(cat(start, Some(head)), last);
                joins(start, Some(head), last);
                joins(from, Some(first), text_of(head, last));
                assert(text_of(first, text_of(head, last)) == text_of(head, last));
            }
        }
    }
}

proof fn own_is_kept(src: Seq<char>, p: &Printer, expr: SpannedExpr)
    requires
        has_no_comments(src),
    ensures
        own_doc(src, p, expr) matches Some(doc) ==> forall|rest: Seq<char>| #[trigger]
            text_of(doc, rest) == written(src, p, expr, rest),
    decreases expr, 4nat,
{
    expr_is_kept(src, p, expr.span.start.0 as int, expr);
    assert(own_doc(src, p, expr) == expr_doc(src, p, expr.span.start.0 as int, expr));
}

proof fn expr_is_kept(src: Seq<char>, p: &Printer, prev: int, expr: SpannedExpr)
    requires
        has_no_comments(src),
    ensures
        expr_doc(src, p, prev, expr) matches Some(doc) ==> forall|rest: Seq<char>| #[trigger]
            text_of(doc, rest) == written(src, p, expr, rest),
    decreases expr, 3nat,
{
    texts_add_up();
    gap_is_empty(src, prev, expr.span.start.0 as int, DocTree::Nil);
    bare_is_kept(src, p, prev, expr);
    assert(expr_doc(src, p, prev, expr) == cat(
        gap_doc(src, prev, expr.span.start.0 as int),
        bare_doc(src, p, prev, expr),
    ));
}

proof fn bare_lists_are_kept(src: Seq<char>, p: &Printer, prev: int, expr: SpannedExpr)
    requires
        has_no_comments(src),
        expr.value is App || expr.value is Array || expr.value is Tuple || expr.value is Block,
    ensures
        bare_doc(src, p, prev, expr) matches Some(doc) ==> forall|rest: Seq<char>| #[trigger]
            text_of(doc, rest) == written(src, p, expr, rest),
    decreases expr, 1nat,
{
    let whole = bare_doc(src, p, prev, expr);
    match expr.value {
        Expr::App(func, args) => {
            own_is_kept(src, p, *func);
            args_are_kept(src, p, args@, args@.len(), func.span.end.0 as int);
            let f = own_doc(src, p, *func);
            let a = args_doc(src, p, func.span.end.0 as int, args@, args@.len());
            assert(whole == grouped(cat(f, nested(a))));
            if whole is Some {
                assert forall|rest: Seq<char>| #[trigger]
                    text_of(whole->0, rest) == written(src, p, expr, rest) by {
                    wraps(cat(f, nested(a)), rest);
                    joins(f, nested(a), rest);
                    wraps(a, rest);
                }
            }
        },
        Expr::Array(_, exprs) => {
            elems_are_kept(src, p, exprs@, exprs@.len());
            let elems = elems_doc(src, p, exprs@, exprs@.len());
            listed_is_kept(whole, "["@, elems, "]"@);
        },
        Expr::Tuple { typ: _, elems } => {
            elems_are_kept(src, p, elems@, elems@.len());
            let inner = elems_doc(src, p, elems@, elems@.len());
            listed_is_kept(whole, "("@, inner, ")"@);
        },
        Expr::Block(exprs) => {
            if exprs@.len() == 1 {
                assert(decreases_to!(exprs@ => exprs@[0]));
                own_is_kept(src, p, exprs@[0]);
                let inner = own_doc(src, p, exprs@[0]);
                assert(whole == cat_text(cat(text_doc("("@), inner), ")"@));
                if whole is Some {
                    assert forall|rest: Seq<char>| #[trigger]
                        text_of(whole->0, rest) == written(src, p, expr, rest) by {
                        let last = ")"@ + rest;
                        joins(cat(text_doc("("@), inner), Some(DocTree::Text(")"@)), rest);
                        joins(text_doc("("@), inner, last);
                    }
                }
            } else {
                lines_are_kept(src, p, exprs@, exprs@.len());
                assert(whole == lines_doc(src, p, exprs@, exprs@.len()));
            }
        },
        _ => {},
    }
}

proof fn bare_operations_are_kept(src: Seq<char>, p: &Printer, prev: int, expr: SpannedExpr)
    requires
        has_no_comments(src),
        expr.value is Infix || expr.value is Projection || expr.value is IfElse,
    ensures
        bare_doc(src, p, prev, expr) matches Some(doc) ==> forall|rest: Seq<char>| #[trigger]
            text_of(doc, rest) == written(src, p, expr, rest),
    decreases expr, 1nat,
{
    let whole = bare_doc(src, p, prev, expr);
    match expr.value {
        Expr::IfElse(pred, if_true, if_false) => {
            own_is_kept(src, p, *pred);
            own_is_kept(src, p, *if_true);
            own_is_kept(src, p, *if_false);
            if_is_kept(src, p, prev, expr);
        },
        Expr::Infix(l, op, r) => {
            own_is_kept(src, p, *l);
            own_is_kept(src, p, *r);
            let (a, b) = (own_doc(src, p, *l), own_doc(src, p, *r));
            let mid = newline_doc(*r).then_text(op.value.name@);
            let sign = mid.then_text(" "@);
            let tail = cat(Some(sign), grouped(b));
            assert(whole == cat(grouped(a), nested(tail)));
            if whole is Some {
                assert forall|rest: Seq<char>| #[trigger]
                    text_of(whole->0, rest) == written(src, p, expr, rest) by {
                    let last = text_of(b->0, rest);
                    let next = text_of(sign, last);
                    joins(grouped(a), nested(tail), rest);
                    wraps(tail, rest);
                    joins(Some(sign), grouped(b), rest);
                    wraps(b, rest);
                    wraps(a, next);
                    joins(Some(mid), Some(DocTree::Text(" "@)), last);
                    joins(
                        Some(newline_doc(*r)),
                        Some(DocTree::Text(op.value.name@)),
                        " "@ + last,
                    );
                }
            }
        },
        Expr::Projection(value, field, _) => {
            own_is_kept(src, p, *value);
            name_is_kept(field@);
            let v = own_doc(src, p, *value);
            let name = ident_doc(field@);
            assert(whole == cat(cat_text(v, "."@), Some(name)));
            if whole is Some {
                assert forall|rest: Seq<char>| #[trigger]
                    text_of(whole->0, rest) == written(src, p, expr, rest) by {
                    joins(cat_text(v, "."@), Some(name), rest);
                    joins(v, Some(DocTree::Text("."@)), text_of(name, rest));
                }
            }
        },
        _ => {},
    }
}

proof fn bare_functions_are_kept(src: Seq<char>, p: &Printer, prev: int, expr: SpannedExpr)
    requires
        has_no_comments(src),
        expr.value is Lambda || expr.value is Record,
    ensures
        bare_doc(src, p, prev, expr) matches Some(doc) ==> forall|rest: Seq<char>| #[trigger]
            text_of(doc, rest) == written(src, p, expr, rest),
    decreases expr, 1nat,
{
    let whole = bare_doc(src, p, prev, expr);
    match expr.value {
        Expr::Lambda(_) => {
            lambda_is_kept(src, p, prev, expr);
            if let Some((head, body)) = lambda_doc(src, p, prev, expr) {
                assert(whole == Some(head.group().then_doc(body)));
                assert forall|rest: Seq<char>| #[trigger]
                    text_of(whole->0, rest) == written(src, p, expr, rest) by {
                    joins(Some(head.group()), Some(body), rest);
                    wraps(Some(head), text_of(body, rest));
                }
            }
        },
        Expr::Record { .. } => {
            record_is_kept(src, p, prev, expr);
            if let Some((head, body)) = lambda_doc(src, p, prev, expr) {
                assert(whole == Some(head.then_doc(body).group()));
                assert forall|rest: Seq<char>| #[trigger]
                    text_of(whole->0, rest) == written(src, p, expr, rest) by {
                    wraps(Some(head.then_doc(body)), rest);
                    joins(Some(head), Some(body), rest);
                    assert(text_of(head, text_of(body, rest)) == written(src, p, expr, rest));
                }
            }
        },
        _ => {},
    }
}

proof fn bare_bindings_are_kept(src: Seq<char>, p: &Printer, prev: int, expr: SpannedExpr)
    requires
        has_no_comments(src),
        expr.value is LetBindings || expr.value is TypeBindings,
    ensures
        bare_doc(src, p, prev, expr) matches Some(doc) ==> forall|rest: Seq<char>| #[trigger]
            text_of(doc, rest) == written(src, p, expr, rest),
    decreases expr, 1nat,
{
    let whole = bare_doc(src, p, prev, expr);
    match expr.value {
        Expr::LetBindings(binds, body) => {
            let end = binds@[binds@.len() - 1].expr.span.end.0 as int;
            bindings_are_kept(src, p, binds@, binds@.len());
            expr_is_kept(src, p, end, *body);
            let (a, b) = (bindings_doc(src, p, binds@, binds@.len()), expr_doc(src, p, end, *body));
            if whole is Some {
                assert(whole == cat(a, grouped(b)));
                assert forall|rest: Seq<char>| #[trigger]
                    text_of(whole->0, rest) == written(src, p, expr, rest) by {
                    joins(a, grouped(b), rest);
                    wraps(b, rest);
                }
            }
        },
        Expr::TypeBindings(binds, body) => {
            let end = binds@[binds@.len() - 1].alias.span.end.0 as int;
            type_bindings_are_kept(src, p, binds@, binds@.len());
            expr_is_kept(src, p, end, *body);
            let note = comment_doc(binds@[0].comment);
            let a = type_bindings_doc(src, p, binds@, binds@.len());
            let b = expr_doc(src, p, end, *body);
            if whole is Some {
                assert(whole == grouped(cat(cat(Some(note), a), b)));
                assert forall|rest: Seq<char>| #[trigger]
                    text_of(whole->0, rest) == written(src, p, expr, rest) by {
                    wraps(cat(cat(Some(note), a), b), rest);
                    joins(cat(Some(note), a), b, rest);
                    joins(Some(note), a, text_of(b->0, rest));
                }
            }
        },
        _ => {},
    }
}

proof fn bare_matches_are_kept(src: Seq<char>, p: &Printer, prev: int, expr: SpannedExpr)
    requires
        has_no_comments(src),
        expr.value is Match,
    ensures
        bare_doc(src, p, prev, expr) matches Some(doc) ==> forall|rest: Seq<char>| #[trigger]
            text_of(doc, rest) == written(src, p, expr, rest),
    decreases expr, 1nat,
{
    let whole = bare_doc(src, p, prev, expr);
    match expr.value {
        Expr::Match(value, alts) => {
            own_is_kept(src, p, *value);
            alternatives_are_kept(src, p, alts@, alts@.len());
            let v = own_doc(src, p, *value);
            let rows = alternatives_doc(src, p, alts@, alts@.len());
            let head = cat_text(cat(text_doc("match "@), v), " with"@);
            let start = cat(grouped(head), Some(DocTree::Newline));
            assert(whole == cat(start, rows));
            if whole is Some {
                assert forall|rest: Seq<char>| #[trigger]
                    text_of(whole->0, rest) == written(src, p, expr, rest) by {
                    let last = text_of(rows->0, rest);
                    joins(start, rows, rest);
                    joins(grouped(head), Some(DocTree::Newline), last);
                    wraps(head, last);
                    joins(cat(text_doc("match "@), v), Some(DocTree::Text(" with"@)), last);
                    joins(text_doc("match "@), v, " with"@ + last);
                }
            }
        },
        _ => {},
    }
}

proof fn bare_sequences_are_kept(src: Seq<char>, p: &Printer, prev: int, expr: SpannedExpr)
    requires
        has_no_comments(src),
        expr.value is Do,
    ensures
        bare_doc(src, p, prev, expr) matches Some(doc) ==> forall|rest: Seq<char>| #[trigger]
            text_of(doc, rest) == written(src, p, expr, rest),
    decreases expr, 1nat,
{
    let whole = bare_doc(src, p, prev, expr);
    match expr.value {
        Expr::Do(do_) => {
            let id = do_.id.span;
            let (start, end) = (expr.span.start.0 + 2, id.start.0 as int);
            let bound = do_.bound.span.start.0 as int;
            let (g, h) = (
                separator_in(src, start, end, DocTree::Space),
                separator_in(src, id.end.0 as int, bound, DocTree::Space),
            );
            gap_is_empty(src, start, end, DocTree::Space);
            gap_is_empty(src, id.end.0 as int, bound, DocTree::Space);
            name_is_kept(do_.id.value.name@);
            let word = ident_doc(do_.id.value.name@);
            let first = cat(text_doc("do"@), g);
            let name = cat(first, Some(word));
            let from = cat_text(cat(name, h), "="@);
            hang_is_kept(src, p, from, *do_.bound);
            let after = do_.bound.span.end.0 as int;
            expr_is_kept(src, p, after, *do_.body);
            let (a, b) = (
                hang_doc(src, p, from, *do_.bound),
                expr_doc(src, p, after, *do_.body),
            );
            assert(whole == cat(grouped(a), grouped(b)));
            if whole is Some {
                assert forall|rest: Seq<char>| #[trigger]
                    text_of(whole->0, rest) == written(src, p, expr, rest) by {
                    let last = text_of(b->0, rest);
                    let value = written(src, p, *do_.bound, last);
                    joins(grouped(a), grouped(b), rest);
                    wraps(b, rest);
                    wraps(a, last);
                    joins(cat(name, h), Some(DocTree::Text("="@)), value);
                    joins(name, h, "="@ + value);
                    joins(first, Some(word), "="@ + value);
                    joins(text_doc("do"@), g, text_of(word, "="@ + value));
                }
            }
        },
        _ => {},
    }
}

proof fn bare_is_kept(src: Seq<char>, p: &Printer, prev: int, expr: SpannedExpr)
    requires
        has_no_comments(src),
    ensures
        bare_doc(src, p, prev, expr) matches Some(doc) ==> forall|rest: Seq<char>| #[trigger]
            text_of(doc, rest) == written(src, p, expr, rest),
    decreases expr, 2nat,
{
    match expr.value {
        Expr::App(..) => bare_lists_are_kept(src, p, prev, expr),
        Expr::Array(..) => bare_lists_are_kept(src, p, prev, expr),
        Expr::Tuple { .. } => bare_lists_are_kept(src, p, prev, expr),
        Expr::Block(..) => bare_lists_are_kept(src, p, prev, expr),
        Expr::Infix(..) => bare_operations_are_kept(src, p, prev, expr),
        Expr::Projection(..) => bare_operations_are_kept(src, p, prev, expr),
        Expr::IfElse(..) => bare_operations_are_kept(src, p, prev, expr),
        Expr::Lambda(..) => bare_functions_are_kept(src, p, prev, expr),
        Expr::Record { .. } => bare_functions_are_kept(src, p, prev, expr),
        Expr::LetBindings(..) => bare_bindings_are_kept(src, p, prev, expr),
        Expr::TypeBindings(..) => bare_bindings_are_kept(src, p, prev, expr),
        Expr::Match(..) => bare_matches_are_kept(src, p, prev, expr),
        Expr::Do(..) => bare_sequences_are_kept(src, p, prev, expr),
        Expr::Ident(id) => name_is_kept(id.name@),
        Expr::Literal(_) => {},
        Expr::Error => {},
    }
}

/// What stands between two marks.
proof fn listed_is_kept(
    whole: Option<DocTree>,
    open: Seq<char>,
    inner: Option<DocTree>,
    close: Seq<char>,
)
    requires
        whole == grouped(cat_text(cat(text_doc(open), inner), close)),
    ensures
        whole is Some ==> inner is Some && forall|rest: Seq<char>| #[trigger]
            text_of(whole->0, rest) == open + text_of(inner->0, close + rest),
{
    if whole is Some {
        joins(cat(text_doc(open), inner), Some(DocTree::Text(close)), Seq::empty());
        joins(text_doc(open), inner, Seq::empty());
        assert forall|rest: Seq<char>| #[trigger]
            text_of(whole->0, rest) == open + text_of(inner->0, close + rest) by {
            wraps(cat_text(cat(text_doc(open), inner), close), rest);
            joins(cat(text_doc(open), inner), Some(DocTree::Text(close)), rest);
            joins(text_doc(open), inner, close + rest);
        }
    }
}

proof fn if_is_kept(src: Seq<char>, p: &Printer, prev: int, expr: SpannedExpr)
    requires
        expr.value matches Expr::IfElse(pred, if_true, if_false) && {
            &&& (own_doc(src, p, *pred) matches Some(doc) ==> forall|rest: Seq<char>| #[trigger]
                text_of(doc, rest) == written(src, p, *pred, rest))
            &&& (own_doc(src, p, *if_true) matches Some(doc) ==> forall|rest: Seq<char>| #[trigger]
                text_of(doc, rest) == written(src, p, *if_true, rest))
            &&& (own_doc(src, p, *if_false) matches Some(doc) ==> forall|rest: Seq<char>| #[trigger]
                text_of(doc, rest) == written(src, p, *if_false, rest))
        },
    ensures
        bare_doc(src, p, prev, expr) matches Some(doc) ==> forall|rest: Seq<char>| #[trigger]
            text_of(doc, rest) == written(src, p, expr, rest),
{
    let whole = bare_doc(src, p, prev, expr);
    if let Expr::IfElse(pred, if_true, if_false) = expr.value {
        let (a, b, c) = (
            own_doc(src, p, *pred),
            own_doc(src, p, *if_true),
            own_doc(src, p, *if_false),
        );
        let space = Some(newline_doc(expr));
        let test = cat(text_doc("if "@), a);
        let spaced = cat(grouped(test), Some(DocTree::Space));
        let start = cat_text(spaced, "then"@);
        let then_part = grouped(nested(cat(space, b)));
        let else_part = grouped(nested(cat(space, c)));
        let two = cat(start, then_part);
        let three = cat(two, space);
        let four = cat_text(three, "else"@);
        assert(whole == cat(four, else_part));
        if whole is Some {
            assert forall|rest: Seq<char>| #[trigger]
                text_of(whole->0, rest) == written(src, p, expr, rest) by {
                let last = text_of(c->0, rest);
                let mid = text_of(b->0, "else"@ + last);
                joins(four, else_part, rest);
                wraps(nested(cat(space, c)), rest);
                wraps(cat(space, c), rest);
                joins(space, c, rest);
                joins(three, Some(DocTree::Text("else"@)), last);
                joins(two, space, "else"@ + last);
                joins(start, then_part, "else"@ + last);
                wraps(nested(cat(space, b)), "else"@ + last);
                wraps(cat(space, b), "else"@ + last);
                joins(space, b, "else"@ + last);
                joins(spaced, Some(DocTree::Text("then"@)), mid);
                joins(grouped(test), Some(DocTree::Space), "then"@ + mid);
                wraps(test, "then"@ + mid);
                joins(text_doc("if "@), a, "then"@ + mid);
            }
        }
    }
}

/// Printing keeps the program: what is printed of an expression is all that is written in it, in
/// order, and nothing else, where its source has no comments. Only the white space may differ.
pub proof fn printing_keeps_the_program(src: Seq<char>, p: &Printer, expr: SpannedExpr)
    requires
        has_no_comments(src),
        shebang_line(src) is None,
    ensures
        source_doc(src, p, expr) matches Some(doc) ==> text_of(doc, Seq::empty()) == written(
            src,
            p,
            expr,
            Seq::empty(),
        ),
{
    texts_add_up();
    expr_is_kept(src, p, 0, expr);
    gap_is_empty(
        src,
        expr.span.end.0 as int,
        vstd::utf8::encode_utf8(src).len() as int,
        DocTree::Nil,
    );
}

} // verus!
