//! Printing of expressions.

use vstd::prelude::*;
use vstd::string::*;
use vstd::utf8::*;
use crate::ast::{
    Alternative, AstType, Expr, ExprField, ExprTypeField, Pattern, PatternField, PatternTypeField,
    SpannedExpr, SpannedIdent, SpannedPattern, TypeBinding, ValueBinding,
};
use crate::doc::{enclosed, ident, ident_doc, laid_out, DocTree, Document};
use crate::kind::Kind;
use crate::metadata::{Comment, CommentType};
use crate::pos::BytePos;
use crate::source::{base_comments, leading_comments, slice, texts, trailing_comments, Source};
use crate::text::{
    begins, decimal, decimal_string, lines, lines_of, starts_with, strings_view, trim_lines,
    trimmed_lines,
};
use crate::types::display::{pretty_print_ast as pretty_type, printable, type_doc, Prec, Printer};
use crate::types::model::{GenericTy, Ty};
use crate::types::{generics_view, ArcType, Generic, Type};

verus! {

/// Whether `expr` takes more than a line, whatever the width.
pub open spec fn multi_line(expr: SpannedExpr) -> bool
    decreases expr, 0nat,
{
    match expr.value {
        Expr::LetBindings(..) => true,
        Expr::Match(..) => true,
        Expr::TypeBindings(..) => true,
        Expr::Do(_) => true,
        Expr::Lambda(lambda) => multi_line(*lambda.body),
        Expr::Tuple { typ: _, elems } => any_multi_line(elems@),
        Expr::Record { typ: _, types: _, exprs, base: _ } => any_field_multi_line(exprs@),
        Expr::IfElse(_, t, f) => multi_line(*t) || multi_line(*f),
        Expr::Infix(l, _, r) => multi_line(*l) || multi_line(*r),
        _ => false,
    }
}

pub open spec fn any_multi_line(exprs: Seq<SpannedExpr>) -> bool
    decreases exprs,
{
    exists|i: int| 0 <= i < exprs.len() && multi_line(#[trigger] exprs[i])
}

pub open spec fn any_field_multi_line(fields: Seq<ExprField>) -> bool
    decreases fields,
{
    exists|i: int|
        0 <= i < fields.len() && match (#[trigger] fields[i]).value {
            Some(expr) => multi_line(expr),
            None => false,
        }
}

fn forced_new_line(expr: &SpannedExpr) -> (res: bool)
    ensures
        res == multi_line(*expr),
    decreases expr,
{
    match &expr.value {
        Expr::LetBindings(..) => true,
        Expr::Match(..) => true,
        Expr::TypeBindings(..) => true,
        Expr::Do(_) => true,
        Expr::Lambda(lambda) => forced_new_line(&lambda.body),
        Expr::Tuple { typ: _, elems } => {
            let mut i: usize = 0;
            while i < elems.len()
                invariant
                    i <= elems@.len(),
                    decreases_to!(expr => elems@),
                    expr.value matches Expr::Tuple { typ: _, elems: all } && all == *elems,
                    forall|j: int| 0 <= j < i ==> !multi_line(#[trigger] elems@[j]),
                decreases elems@.len() - i,
            {
                assert(decreases_to!(elems@ => elems@[i as int]));
                if forced_new_line(&elems[i]) {
                    assert(any_multi_line(elems@));
                    return true;
                }
                i += 1;
            }
            assert(multi_line(*expr) == any_multi_line(elems@));
            false
        },
        Expr::Record { typ: _, types: _, exprs, base: _ } => {
            let mut i: usize = 0;
            while i < exprs.len()
                invariant
                    i <= exprs@.len(),
                    decreases_to!(expr => exprs@),
                    expr.value matches Expr::Record { typ: _, types: _, exprs: all, base: _ } && all
                        == *exprs,
                    forall|j: int|
                        0 <= j < i ==> match (#[trigger] exprs@[j]).value {
                            Some(expr) => !multi_line(expr),
                            None => true,
                        },
                decreases exprs@.len() - i,
            {
                assert(decreases_to!(exprs@ => exprs@[i as int]));
                if let Some(value) = &exprs[i].value {
                    if forced_new_line(value) {
                        assert(any_field_multi_line(exprs@));
                        return true;
                    }
                }
                i += 1;
            }
            assert(multi_line(*expr) == any_field_multi_line(exprs@));
            false
        },
        Expr::IfElse(_, t, f) => forced_new_line(t) || forced_new_line(f),
        Expr::Infix(l, _, r) => forced_new_line(l) || forced_new_line(r),
        _ => false,
    }
}

/// A line break where `expr` takes more than a line, else a space.
pub open spec fn newline_doc(expr: SpannedExpr) -> DocTree {
    if multi_line(expr) {
        DocTree::Newline
    } else {
        DocTree::Space
    }
}

fn newline(expr: &SpannedExpr) -> (res: Document)
    ensures
        res@ == newline_doc(*expr),
{
    if forced_new_line(expr) {
        Document::Newline
    } else {
        Document::Space
    }
}

/// The first `n` of `lines`, each behind `start` and before a line break.
pub open spec fn comment_lines_doc(lines: Seq<Seq<char>>, start: DocTree, n: nat) -> DocTree
    decreases n,
{
    if n == 0 || n > lines.len() {
        DocTree::Nil
    } else {
        comment_lines_doc(lines, start, (n - 1) as nat).then_doc(
            start.then_text(lines[n - 1]).then_doc(DocTree::Newline),
        )
    }
}

/// A documentation comment.
pub open spec fn comment_doc(comment: Option<Comment>) -> DocTree {
    match comment {
        Some(comment) => {
            let lines = lines_of(comment.content@);
            match comment.typ {
                CommentType::Line => comment_lines_doc(
                    lines,
                    DocTree::Text("/// "@),
                    lines.len(),
                ),
                CommentType::Block => DocTree::Text("/**"@).then_doc(DocTree::Newline).then_doc(
                    comment_lines_doc(lines, DocTree::Nil, lines.len()),
                ).then_text("*/"@).then_doc(DocTree::Newline),
            }
        },
        None => DocTree::Nil,
    }
}

fn print_comment_lines(lines: &Vec<String>, line: bool) -> (res: Document)
    ensures
        res@ == comment_lines_doc(
            strings_view(lines@),
            if line {
                DocTree::Text("/// "@)
            } else {
                DocTree::Nil
            },
            lines@.len(),
        ),
{
    let ghost all = strings_view(lines@);
    let ghost begin = if line {
        DocTree::Text("/// "@)
    } else {
        DocTree::Nil
    };
    let mut doc = Document::Nil;
    let mut i: usize = 0;
    while i < lines.len()
        invariant
            i <= lines@.len(),
            all == strings_view(lines@),
            begin == if line {
                DocTree::Text("/// "@)
            } else {
                DocTree::Nil
            },
            doc@ == comment_lines_doc(all, begin, i as nat),
        decreases lines@.len() - i,
    {
        assert(all[i as int] == lines@[i as int]@);
        let start = if line {
            Document::text("/// ")
        } else {
            Document::Nil
        };
        doc = doc.append(start.append_text(lines[i].as_str()).append(Document::Newline));
        i += 1;
    }
    doc
}

pub fn doc_comment(comment: &Option<Comment>) -> (res: Document)
    ensures
        res@ == comment_doc(*comment),
{
    match comment {
        Some(comment) => {
            let all = lines(comment.content.as_str());
            assert(strings_view(all@).len() == all@.len());
            match comment.typ {
                CommentType::Line => print_comment_lines(&all, true),
                CommentType::Block => Document::text("/**").append(Document::Newline).append(
                    print_comment_lines(&all, false),
                ).append_text("*/").append(Document::Newline),
            }
        },
        None => Document::Nil,
    }
}

/// How `kind` is printed where it stands in `prec`.
pub open spec fn kind_doc(prec: Prec, kind: Kind) -> DocTree
    decreases kind,
{
    match kind {
        Kind::Type => DocTree::Text("Type"@),
        Kind::Row => DocTree::Text("Row"@),
        Kind::Hole => DocTree::Text("_"@),
        Kind::Error => DocTree::Text("!"@),
        Kind::Variable(id) => DocTree::Text(decimal(id as nat)),
        Kind::Function(a, r) => enclosed(
            prec.needs_parens(Prec::Function),
            kind_doc(Prec::Function, *a).then_doc(DocTree::Space).then_text("-> "@).then_doc(
                kind_doc(Prec::Top, *r),
            ),
        ),
    }
}

/// How `kind` is printed where it stands in `prec`.
pub fn pretty_kind(prec: Prec, kind: &Kind) -> (res: Document)
    ensures
        res@ == kind_doc(prec, *kind),
    decreases kind,
{
    match kind {
        Kind::Type => Document::text("Type"),
        Kind::Row => Document::text("Row"),
        Kind::Hole => Document::text("_"),
        Kind::Error => Document::text("!"),
        Kind::Variable(id) => Document::text(decimal_string(*id as u64).as_str()),
        Kind::Function(a, r) => {
            let doc = pretty_kind(Prec::Function, a).append(Document::Space).append_text(
                "-> ",
            ).append(pretty_kind(Prec::Top, r));
            prec.enclose(Prec::Function, doc)
        },
    }
}

/// How `pattern` is printed.
pub open spec fn pattern_doc(pattern: SpannedPattern) -> DocTree
    decreases pattern, 0nat,
{
    match pattern.value {
        Pattern::As(id, inner) => DocTree::Text(id@).then_text("@"@).then_doc(pattern_doc(*inner)),
        Pattern::Constructor(ctor, args) => DocTree::Text(ctor.name@).then_doc(
            pattern_args_doc(args@, args@.len()),
        ),
        Pattern::Ident(id) => ident_doc(id.name@),
        Pattern::Record { typ: _, types, fields } => DocTree::Text("{"@).then_doc(
            pattern_fields_doc(
                fields@,
                fields@.len(),
                pattern_types_doc(types@, types@.len()),
                types@.len() == 0,
            ).nest(),
        ).then_doc(
            if types@.len() == 0 && fields@.len() == 0 {
                DocTree::Nil
            } else {
                DocTree::Space
            },
        ).then_text("}"@),
        Pattern::Tuple { typ: _, elems } => DocTree::Text("("@).then_doc(
            pattern_elems_doc(elems@, elems@.len()),
        ).then_text(")"@).group(),
        Pattern::Error => DocTree::Text("<error>"@),
    }
}

/// A constructor with arguments of its own, which stands in parentheses where it is an argument.
pub open spec fn applies_constructor(pattern: SpannedPattern) -> bool {
    pattern.value matches Pattern::Constructor(_, args) && args@.len() > 0
}

/// The arguments of a constructor, with a space before each.
pub open spec fn pattern_args_doc(args: Seq<SpannedPattern>, n: nat) -> DocTree
    decreases args, n,
{
    if n == 0 || n > args.len() {
        DocTree::Nil
    } else {
        pattern_args_doc(args, (n - 1) as nat).then_doc(
            DocTree::Text(" "@).then_doc(
                enclosed(applies_constructor(args[n - 1]), pattern_doc(args[n - 1])),
            ),
        )
    }
}

/// The elements of a tuple, with commas between them.
pub open spec fn pattern_elems_doc(elems: Seq<SpannedPattern>, n: nat) -> DocTree
    decreases elems, n,
{
    if n == 0 || n > elems.len() {
        DocTree::Nil
    } else {
        let before = pattern_elems_doc(elems, (n - 1) as nat);
        let start = if n == 1 {
            before
        } else {
            before.then_doc(DocTree::Text(","@).then_doc(DocTree::Space))
        };
        start.then_doc(pattern_doc(elems[n - 1]))
    }
}

/// The associated types of a record pattern, with commas between them.
pub open spec fn pattern_types_doc(types: Seq<PatternTypeField>, n: nat) -> DocTree
    decreases n,
{
    if n == 0 || n > types.len() {
        DocTree::Nil
    } else {
        let before = pattern_types_doc(types, (n - 1) as nat);
        let start = if n == 1 {
            before
        } else {
            before.then_text(","@)
        };
        start.then_doc(DocTree::Space.then_text(types[n - 1].name.value@))
    }
}

/// The fields of a record pattern behind `doc`, with commas between them.
pub open spec fn pattern_fields_doc(
    fields: Seq<PatternField>,
    n: nat,
    doc: DocTree,
    first: bool,
) -> DocTree
    decreases fields, n,
{
    if n == 0 || n > fields.len() {
        doc
    } else {
        let before = pattern_fields_doc(fields, (n - 1) as nat, doc, first);
        let start = if n == 1 && first {
            before
        } else {
            before.then_text(","@)
        };
        let value = match fields[n - 1].value {
            Some(pattern) => DocTree::Text(" = "@).then_doc(pattern_doc(pattern)),
            None => DocTree::Nil,
        };
        start.then_doc(
            DocTree::Space.then_doc(ident_doc(fields[n - 1].name.value@)).then_doc(value),
        )
    }
}

/// How `pattern` is printed.
#[verifier::rlimit(30)]
pub fn pretty_pattern(pattern: &SpannedPattern) -> (res: Document)
    ensures
        res@ == pattern_doc(*pattern),
    decreases pattern,
{
    match &pattern.value {
        Pattern::As(id, inner) => Document::text(id.as_str()).append_text("@").append(
            pretty_pattern(inner),
        ),
        Pattern::Constructor(ctor, args) => {
            let mut doc = Document::Nil;
            let mut i: usize = 0;
            while i < args.len()
                invariant
                    i <= args@.len(),
                    decreases_to!(pattern => args@),
                    doc@ == pattern_args_doc(args@, i as nat),
                decreases args@.len() - i,
            {
                assert(decreases_to!(args@ => args@[i as int]));
                let nested = match &args[i].value {
                    Pattern::Constructor(_, inner) => inner.len() > 0,
                    _ => false,
                };
                let arg = Document::enclose(nested, pretty_pattern(&args[i]));
                doc = doc.append(Document::text(" ").append(arg));
                i += 1;
            }
            Document::text(ctor.name.as_str()).append(doc)
        },
        Pattern::Ident(id) => ident(id.name.as_str()),
        Pattern::Record { typ: _, types, fields } => {
            let mut doc = Document::Nil;
            let mut i: usize = 0;
            while i < types.len()
                invariant
                    i <= types@.len(),
                    doc@ == pattern_types_doc(types@, i as nat),
                decreases types@.len() - i,
            {
                if i > 0 {
                    doc = doc.append_text(",");
                }
                doc = doc.append(Document::Space.append_text(types[i].name.value.as_str()));
                i += 1;
            }
            let ghost start = doc@;
            let mut j: usize = 0;
            while j < fields.len()
                invariant
                    j <= fields@.len(),
                    decreases_to!(pattern => fields@),
                    doc@ == pattern_fields_doc(fields@, j as nat, start, types@.len() == 0),
                decreases fields@.len() - j,
            {
                assert(decreases_to!(fields@ => fields@[j as int]));
                if !(j == 0 && types.len() == 0) {
                    doc = doc.append_text(",");
                }
                let value = match &fields[j].value {
                    Some(new_name) => Document::text(" = ").append(pretty_pattern(new_name)),
                    None => Document::Nil,
                };
                doc = doc.append(
                    Document::Space.append(ident(fields[j].name.value.as_str())).append(value),
                );
                j += 1;
            }
            let end = if types.len() == 0 && fields.len() == 0 {
                Document::Nil
            } else {
                Document::Space
            };
            Document::text("{").append(doc.nest()).append(end).append_text("}")
        },
        Pattern::Tuple { typ: _, elems } => {
            let mut doc = Document::Nil;
            let mut i: usize = 0;
            while i < elems.len()
                invariant
                    i <= elems@.len(),
                    decreases_to!(pattern => elems@),
                    doc@ == pattern_elems_doc(elems@, i as nat),
                decreases elems@.len() - i,
            {
                assert(decreases_to!(elems@ => elems@[i as int]));
                if i > 0 {
                    doc = doc.append(Document::text(",").append(Document::Space));
                }
                doc = doc.append(pretty_pattern(&elems[i]));
                i += 1;
            }
            Document::text("(").append(doc).append_text(")").group()
        },
        Pattern::Error => Document::text("<error>"),
    }
}

/// A document, if there is one: there is none for an expression whose positions do not fit its
/// source.
pub type MaybeDoc = Option<DocTree>;

/// `a` and behind it `b`.
pub open spec fn cat(a: MaybeDoc, b: MaybeDoc) -> MaybeDoc {
    match (a, b) {
        (Some(a), Some(b)) => Some(a.then_doc(b)),
        _ => None,
    }
}

/// `a` and behind it the text `b`.
pub open spec fn cat_text(a: MaybeDoc, b: Seq<char>) -> MaybeDoc {
    cat(a, Some(DocTree::Text(b)))
}

pub open spec fn grouped(a: MaybeDoc) -> MaybeDoc {
    match a {
        Some(a) => Some(a.group()),
        None => None,
    }
}

pub open spec fn nested(a: MaybeDoc) -> MaybeDoc {
    match a {
        Some(a) => Some(a.nest()),
        None => None,
    }
}

pub open spec fn text_doc(text: Seq<char>) -> MaybeDoc {
    Some(DocTree::Text(text))
}

/// The first `n` of `comments`, and how many of them are more than line breaks.
pub open spec fn comments_tree(comments: Seq<Seq<char>>, n: nat) -> (DocTree, nat)
    decreases n,
{
    if n == 0 || n > comments.len() {
        (DocTree::Nil, 0)
    } else {
        let (before, count) = comments_tree(comments, (n - 1) as nat);
        let comment = comments[n - 1];
        if comment.len() == 0 {
            (before.then_doc(DocTree::Newline), count)
        } else if begins(comment, "//"@) {
            (before.then_doc(DocTree::Text(comment).then_doc(DocTree::Newline)), count + 1)
        } else {
            (before.then_doc(DocTree::Text(comment)), count + 1)
        }
    }
}

/// The comments in `src` from `start` to `end`, and how many there are.
pub open spec fn gap(src: Seq<char>, start: int, end: int) -> Option<(DocTree, nat)> {
    match slice(src, start, end) {
        Some(text) => {
            let comments = leading_comments(text);
            Some(comments_tree(comments, comments.len()))
        },
        None => None,
    }
}

/// The comments in `src` from `start` to `end`.
pub open spec fn gap_doc(src: Seq<char>, start: int, end: int) -> MaybeDoc {
    match gap(src, start, end) {
        Some((doc, _)) => Some(doc),
        None => None,
    }
}

/// `comments` from `from` on, as line comments.
pub open spec fn line_comments_tree(comments: Seq<Seq<char>>, from: int) -> DocTree
    decreases comments.len() - from,
{
    if from < 0 || from >= comments.len() {
        DocTree::Nil
    } else {
        let comment = if comments[from].len() == 0 {
            DocTree::Nil
        } else {
            DocTree::Text("// "@).then_text(comments[from])
        };
        comment.then_doc(DocTree::Newline).then_doc(line_comments_tree(comments, from + 1))
    }
}

/// The comments in `src` from `start` to `end` behind the first thing there that is none.
pub open spec fn gap_behind_doc(src: Seq<char>, start: int, end: int) -> MaybeDoc {
    match slice(src, start, end) {
        Some(text) => Some(line_comments_tree(trailing_comments(text), 0)),
        None => None,
    }
}

/// The comments in `src` from `start` to `end`, with a space on both sides, or `default` if nothing
/// is there.
pub open spec fn gap_or(src: Seq<char>, start: int, end: int, default: DocTree) -> MaybeDoc {
    match gap(src, start, end) {
        Some((doc, count)) => Some(
            if doc is Nil {
                default
            } else if count == 0 {
                doc
            } else {
                DocTree::Space.then_doc(doc).then_doc(DocTree::Space)
            },
        ),
        None => None,
    }
}

/// What separates two parts: `comments`, with a space on both sides unless they begin on a line of their
/// own, or `default` if there are none.
pub open spec fn separator(comments: Seq<Seq<char>>, default: DocTree) -> DocTree {
    let doc = comments_tree(comments, comments.len()).0;
    if doc is Nil {
        default
    } else if comments.len() > 0 && comments[0].len() == 0 {
        doc
    } else {
        DocTree::Space.then_doc(doc).then_doc(DocTree::Space)
    }
}

/// The comments in `src` from `start` to `end` as what separates two parts.
pub open spec fn separator_in(src: Seq<char>, start: int, end: int, default: DocTree) -> MaybeDoc {
    match slice(src, start, end) {
        Some(text) => Some(separator(leading_comments(text), default)),
        None => None,
    }
}

/// `typ`, if it can be printed.
pub open spec fn maybe_type(p: &Printer, ast: AstType, typ: Ty) -> MaybeDoc {
    if printable(typ) {
        Some(type_doc(p, Some(ast), Prec::Top, typ))
    } else {
        None
    }
}

/// The first `n` of `args`, with a space behind each.
pub open spec fn idents_doc(args: Seq<SpannedIdent>, n: nat) -> DocTree
    decreases n,
{
    if n == 0 || n > args.len() {
        DocTree::Nil
    } else {
        idents_doc(args, (n - 1) as nat).then_doc(
            DocTree::Text(args[n - 1].value.name@).then_text(" "@),
        )
    }
}

/// An entry of a record.
#[derive(Copy, Clone)]
pub enum Item {
    /// The associated type of that position
    Type(usize),
    /// The field of that position
    Field(usize),
}

/// The entries of a record in the order in which they stand in the source, from the associated type
/// `i` and the field `j` on.
pub open spec fn ordered(
    types: Seq<ExprTypeField>,
    exprs: Seq<ExprField>,
    i: int,
    j: int,
) -> Seq<Item>
    decreases types.len() - i + exprs.len() - j,
{
    if i < 0 || j < 0 || i > types.len() || j > exprs.len() {
        Seq::empty()
    } else if i < types.len() && j < exprs.len() {
        if types[i].name.span.start.0 < exprs[j].name.span.start.0 {
            seq![Item::Type(i as usize)] + ordered(types, exprs, i + 1, j)
        } else {
            seq![Item::Field(j as usize)] + ordered(types, exprs, i, j + 1)
        }
    } else if i < types.len() {
        seq![Item::Type(i as usize)] + ordered(types, exprs, i + 1, j)
    } else if j < exprs.len() {
        seq![Item::Field(j as usize)] + ordered(types, exprs, i, j + 1)
    } else {
        Seq::empty()
    }
}

/// Where `item` starts and ends.
pub open spec fn item_span(
    types: Seq<ExprTypeField>,
    exprs: Seq<ExprField>,
    item: Item,
) -> (int, int) {
    match item {
        Item::Type(i) => (
            types[i as int].name.span.start.0 as int,
            types[i as int].name.span.end.0 as int,
        ),
        Item::Field(j) => {
            let field = exprs[j as int];
            (
                field.name.span.start.0 as int,
                match field.value {
                    Some(expr) => expr.span.end.0 as int,
                    None => field.name.span.start.0 as int,
                },
            )
        },
    }
}

/// What stands in `src` before and behind the comma that follows the entry `i` of `items`.
pub open spec fn item_gap(
    src: Seq<char>,
    types: Seq<ExprTypeField>,
    exprs: Seq<ExprField>,
    items: Seq<Item>,
    i: int,
) -> Option<(DocTree, DocTree)> {
    let (start, end) = (
        item_span(types, exprs, items[i]).1,
        item_span(types, exprs, items[i + 1]).0,
    );
    match (gap_doc(src, start, end), gap_behind_doc(src, start, end)) {
        (Some(l), Some(r)) => Some((l, r)),
        _ => None,
    }
}

/// Whether something stands between two of the first `n + 1` of `items`.
pub open spec fn any_gap(
    src: Seq<char>,
    types: Seq<ExprTypeField>,
    exprs: Seq<ExprField>,
    items: Seq<Item>,
    n: nat,
) -> Option<bool>
    decreases n,
{
    if n == 0 || n >= items.len() {
        Some(false)
    } else {
        match (
            any_gap(src, types, exprs, items, (n - 1) as nat),
            item_gap(src, types, exprs, items, n - 1),
        ) {
            (Some(before), Some((l, r))) => Some(before || !(l is Nil) || !(r is Nil)),
            _ => None,
        }
    }
}

/// What stands between the entries `i` and `i + 1` of a record.
pub open spec fn item_separator(
    src: Seq<char>,
    types: Seq<ExprTypeField>,
    exprs: Seq<ExprField>,
    items: Seq<Item>,
    line: DocTree,
    i: int,
) -> MaybeDoc {
    match item_gap(src, types, exprs, items, i) {
        Some((l, r)) => Some(
            l.then_text(","@).then_doc(
                if r is Nil {
                    line
                } else {
                    r
                },
            ),
        ),
        None => None,
    }
}

/// The name of a field and the equals sign, with the comments in `text`, which stands between the name
/// and the value.
pub open spec fn field_head(id: DocTree, text: Seq<char>) -> DocTree {
    let (before, behind) = (leading_comments(text), trailing_comments(text));
    let head = if comments_tree(before, before.len()).1 == 0 {
        id.then_text(" ="@)
    } else {
        id.then_doc(separator(before, DocTree::Space)).then_text("="@)
    };
    let (doc, count) = comments_tree(behind, behind.len());
    if count == 0 {
        head
    } else {
        head.then_doc(DocTree::Space).then_doc(doc)
    }
}

/// What stands before the first entry of a record: the comments in `src` from `start` to `end`, or
/// `line` if there are none.
pub open spec fn lead_doc(src: Seq<char>, start: int, end: int, line: DocTree) -> MaybeDoc {
    match slice(src, start, end) {
        Some(text) => {
            let comments = leading_comments(text);
            Some(
                if comments_tree(comments, comments.len()).1 == 0 {
                    line
                } else {
                    separator(comments, line)
                },
            )
        },
        None => None,
    }
}

/// The entry `item`.
pub open spec fn item_doc(
    src: Seq<char>,
    p: &Printer,
    types: Seq<ExprTypeField>,
    exprs: Seq<ExprField>,
    item: Item,
) -> MaybeDoc
    decreases exprs, 0nat,
{
    match item {
        Item::Type(i) => Some(ident_doc(types[i as int].name.value@)),
        Item::Field(j) => if 0 <= j < exprs.len() {
            let id = ident_doc(exprs[j as int].name.value@);
            match exprs[j as int].value {
                Some(expr) => match slice(
                    src,
                    exprs[j as int].name.span.end.0 as int,
                    expr.span.start.0 as int,
                ) {
                    Some(text) => hang_doc(src, p, Some(field_head(id, text)), expr),
                    None => None,
                },
                None => Some(id),
            }
        } else {
            None
        },
    }
}

/// The first `n` of `items`.
pub open spec fn items_doc(
    src: Seq<char>,
    p: &Printer,
    types: Seq<ExprTypeField>,
    exprs: Seq<ExprField>,
    items: Seq<Item>,
    line: DocTree,
    n: nat,
) -> MaybeDoc
    decreases exprs, n + 1,
{
    if n == 0 || n > items.len() {
        Some(DocTree::Nil)
    } else {
        let before = items_doc(src, p, types, exprs, items, line, (n - 1) as nat);
        let start = if n == 1 {
            before
        } else {
            cat(before, item_separator(src, types, exprs, items, line, n - 2))
        };
        cat(start, item_doc(src, p, types, exprs, items[n - 1]))
    }
}

/// What stands before the first line break of a lambda or a record, and what follows.
pub type Hanging = Option<(DocTree, DocTree)>;

/// The head and the body of a lambda or a record.
pub open spec fn lambda_doc(src: Seq<char>, p: &Printer, prev: int, expr: SpannedExpr) -> Hanging
    decreases expr, 0nat,
{
    match expr.value {
        Expr::Lambda(lambda) => {
            let decl = DocTree::Text("\\"@).then_doc(
                idents_doc(lambda.args@, lambda.args@.len()),
            ).then_text("->"@);
            match hanging_doc(src, p, prev, *lambda.body) {
                Some((next, body)) => Some(
                    (
                        if next is Nil {
                            decl
                        } else {
                            decl.then_doc(DocTree::Space).then_doc(next)
                        },
                        body,
                    ),
                ),
                None => None,
            }
        },
        Expr::Record { typ: _, types, exprs, base } => {
            let items = ordered(types@, exprs@, 0, 0);
            let n = items.len();
            match any_gap(src, types@, exprs@, items, (n - 1) as nat) {
                Some(any) => {
                    let line = if any {
                        DocTree::Newline
                    } else {
                        newline_doc(expr)
                    };
                    let end = if n == 0 {
                        expr.span.start.0 as int
                    } else {
                        item_span(types@, exprs@, items[n - 1]).1
                    };
                    let start = if n == 0 {
                        Some(DocTree::Nil)
                    } else {
                        lead_doc(
                            src,
                            expr.span.start.0 + 1,
                            item_span(types@, exprs@, items[0]).0,
                            line,
                        )
                    };
                    let fields = cat(
                        start,
                        items_doc(src, p, types@, exprs@, items, line, n),
                    );
                    let record = match base {
                        None => cat(
                            nested(fields),
                            if n == 0 && end < expr.span.end.0 {
                                lead_doc(src, end + 1, expr.span.end.0 as int, line)
                            } else {
                                gap_or(src, end, expr.span.end.0 as int, line)
                            },
                        ),
                        Some(base) => {
                            let from = if n == 0 {
                                expr.span.start.0 + 1
                            } else {
                                end
                            };
                            cat(
                                nested(cat(fields, base_doc(src, p, from, n > 0, line, *base))),
                                separator_in(
                                    src,
                                    base.span.end.0 as int,
                                    expr.span.end.0 as int,
                                    line,
                                ),
                            )
                        },
                    };
                    match cat_text(grouped(record), "}"@) {
                        Some(record) => Some((DocTree::Text("{"@), record)),
                        None => None,
                    }
                },
                None => None,
            }
        },
        _ => None,
    }
}

/// What a record extends, behind what stands in `src` from `from` on, and behind a comma if `comma`.
pub open spec fn base_doc(
    src: Seq<char>,
    p: &Printer,
    from: int,
    comma: bool,
    line: DocTree,
    base: SpannedExpr,
) -> MaybeDoc
    decreases base, 4nat,
{
    match slice(src, from, base.span.start.0 as int) {
        None => None,
        Some(text) => {
            let (first, second, third) = base_comments(text);
            let start = if comma {
                comments_tree(first, first.len()).0.then_text(","@)
            } else {
                DocTree::Nil
            };
            cat(
                Some(
                    start.then_doc(separator(second, line)).then_text(".."@).then_doc(
                        separator(third, DocTree::Space),
                    ),
                ),
                own_doc(src, p, base),
            )
        },
    }
}

/// The head and the body of `expr`. Only lambdas and records have a head.
pub open spec fn hanging_doc(src: Seq<char>, p: &Printer, prev: int, expr: SpannedExpr) -> Hanging
    decreases expr, 3nat,
{
    match expr.value {
        Expr::Lambda(_) => lambda_doc(src, p, prev, expr),
        Expr::Record { .. } => lambda_doc(src, p, prev, expr),
        _ => match cat(Some(newline_doc(expr)), expr_doc(src, p, prev, expr)) {
            Some(body) => Some((DocTree::Nil, body)),
            None => None,
        },
    }
}

/// `expr` behind `from`. Its head stands on the same line.
pub open spec fn hang_doc(
    src: Seq<char>,
    p: &Printer,
    from: MaybeDoc,
    expr: SpannedExpr,
) -> MaybeDoc
    decreases expr, 4nat,
{
    match hanging_doc(src, p, expr.span.start.0 as int, expr) {
        Some((head, body)) => {
            let first = if head is Nil {
                DocTree::Nil
            } else {
                DocTree::Space
            };
            let body = match expr.value {
                Expr::Record { .. } => body,
                _ => body.nest(),
            };
            grouped(cat(grouped(cat(cat(from, Some(first)), Some(head))), Some(body)))
        },
        None => None,
    }
}

/// `expr` on its own.
pub open spec fn own_doc(src: Seq<char>, p: &Printer, expr: SpannedExpr) -> MaybeDoc
    decreases expr, 3nat,
{
    expr_doc(src, p, expr.span.start.0 as int, expr)
}

/// The first `n` of `args`, behind a position each.
pub open spec fn args_doc(
    src: Seq<char>,
    p: &Printer,
    end: int,
    args: Seq<SpannedExpr>,
    n: nat,
) -> MaybeDoc
    decreases args, n,
{
    if n == 0 || n > args.len() {
        Some(DocTree::Nil)
    } else {
        let prev = if n == 1 {
            end
        } else {
            args[n - 2].span.end.0 as int
        };
        cat(
            args_doc(src, p, end, args, (n - 1) as nat),
            cat(
                gap_or(src, prev, args[n - 1].span.start.0 as int, DocTree::Space),
                own_doc(src, p, args[n - 1]),
            ),
        )
    }
}

/// The first `n` of `exprs` with commas between them.
pub open spec fn elems_doc(src: Seq<char>, p: &Printer, exprs: Seq<SpannedExpr>, n: nat) -> MaybeDoc
    decreases exprs, n,
{
    if n == 0 || n > exprs.len() {
        Some(DocTree::Nil)
    } else {
        let before = elems_doc(src, p, exprs, (n - 1) as nat);
        let start = if n == 1 {
            before
        } else {
            cat(before, Some(DocTree::Text(","@).then_doc(DocTree::Space)))
        };
        cat(start, own_doc(src, p, exprs[n - 1]))
    }
}

/// The first `n` of `exprs`, each on its own line, with what stands between them in `src`.
pub open spec fn lines_doc(src: Seq<char>, p: &Printer, exprs: Seq<SpannedExpr>, n: nat) -> MaybeDoc
    decreases exprs, n,
{
    if n == 0 || n > exprs.len() {
        Some(DocTree::Nil)
    } else {
        let before = lines_doc(src, p, exprs, (n - 1) as nat);
        let start = if n == 1 {
            before
        } else {
            cat(
                before,
                separator_in(
                    src,
                    exprs[n - 2].span.end.0 as int,
                    exprs[n - 1].span.start.0 as int,
                    DocTree::Newline,
                ),
            )
        };
        cat(start, grouped(own_doc(src, p, exprs[n - 1])))
    }
}

/// The first `n` of `alts`, each on its own line.
pub open spec fn alternatives_doc(
    src: Seq<char>,
    p: &Printer,
    alts: Seq<Alternative>,
    n: nat,
) -> MaybeDoc
    decreases alts, n,
{
    if n == 0 || n > alts.len() {
        Some(DocTree::Nil)
    } else {
        let before = alternatives_doc(src, p, alts, (n - 1) as nat);
        let start = if n == 1 {
            before
        } else {
            cat(before, Some(DocTree::Newline))
        };
        let alt = DocTree::Text("| "@).then_doc(pattern_doc(alts[n - 1].pattern)).then_text(" ->"@);
        cat(
            start,
            cat(Some(alt), grouped(hang_doc(src, p, Some(DocTree::Nil), alts[n - 1].expr))),
        )
    }
}

/// The type that is written for a binding.
pub open spec fn binding_type_doc(p: &Printer, bind: ValueBinding) -> MaybeDoc {
    match bind.typ {
        None => Some(DocTree::Nil),
        Some(typ) => if typ.typ@ is Hole {
            Some(DocTree::Nil)
        } else {
            cat(cat(text_doc(": "@), maybe_type(p, typ, typ.typ@)), Some(DocTree::Space))
        },
    }
}

/// A binding behind `prefix`.
pub open spec fn binding_doc(
    src: Seq<char>,
    p: &Printer,
    prefix: Seq<char>,
    bind: ValueBinding,
) -> MaybeDoc
    decreases bind, 0nat,
{
    let name = pattern_doc(bind.name).then_text(" "@).then_doc(
        idents_doc(bind.args@, bind.args@.len()),
    ).group();
    let decl = cat_text(
        cat(Some(DocTree::Text(prefix).then_doc(name)), binding_type_doc(p, bind)),
        "="@,
    );
    cat(Some(comment_doc(bind.comment)), grouped(hang_doc(src, p, decl, bind.expr)))
}

/// The first `n` of `binds`.
pub open spec fn bindings_doc(
    src: Seq<char>,
    p: &Printer,
    binds: Seq<ValueBinding>,
    n: nat,
) -> MaybeDoc
    decreases binds, n,
{
    if n == 0 || n > binds.len() {
        Some(DocTree::Nil)
    } else {
        let before = bindings_doc(src, p, binds, (n - 1) as nat);
        let (start, prefix) = if n == 1 {
            (before, "let "@)
        } else {
            (
                cat(
                    before,
                    gap_doc(
                        src,
                        binds[n - 2].expr.span.end.0 as int,
                        binds[n - 1].name.span.start.0 as int,
                    ),
                ),
                "and "@,
            )
        };
        cat(start, binding_doc(src, p, prefix, binds[n - 1]))
    }
}

/// The first `n` of the parameters of an alias, with a space behind each.
pub open spec fn alias_params_doc(params: Seq<GenericTy>, n: nat) -> DocTree
    decreases n,
{
    if n == 0 || n > params.len() {
        DocTree::Nil
    } else {
        let param = params[n - 1];
        let doc = if !(*param.kind is Type) && !(*param.kind is Hole) {
            DocTree::Text("("@).then_text(param.id).then_text(" :"@).then_doc(
                DocTree::Space,
            ).then_doc(kind_doc(Prec::Top, *param.kind).group()).then_text(")"@).group()
        } else {
            DocTree::Text(param.id)
        };
        alias_params_doc(params, (n - 1) as nat).then_doc(doc.then_doc(DocTree::Space))
    }
}

/// The declaration of a type behind `prefix`.
pub open spec fn type_binding_doc(p: &Printer, prefix: Seq<char>, bind: TypeBinding) -> MaybeDoc {
    let data = bind.alias.value@;
    let typ = if data.typ is Record {
        maybe_type(p, bind.aliased_type, data.typ)
    } else {
        nested(maybe_type(p, bind.aliased_type, data.typ))
    };
    grouped(
        cat(
            Some(
                DocTree::Text(prefix).then_text(" "@).then_text(bind.name.value@).then_text(
                    " "@,
                ).then_doc(alias_params_doc(data.params, data.params.len()).group()),
            ),
            grouped(cat(text_doc("= "@), typ)),
        ),
    )
}

/// The first `n` of the declarations `binds`.
pub open spec fn type_bindings_doc(
    src: Seq<char>,
    p: &Printer,
    binds: Seq<TypeBinding>,
    n: nat,
) -> MaybeDoc
    decreases n,
{
    if n == 0 || n > binds.len() {
        Some(DocTree::Nil)
    } else {
        let before = type_bindings_doc(src, p, binds, (n - 1) as nat);
        let (start, prefix) = if n == 1 {
            (before, "type"@)
        } else {
            (
                cat(
                    before,
                    gap_doc(
                        src,
                        binds[n - 2].alias.span.end.0 as int,
                        binds[n - 1].name.span.start.0 as int,
                    ),
                ),
                "and"@,
            )
        };
        cat(start, type_binding_doc(p, prefix, binds[n - 1]))
    }
}

/// `expr` behind the comments that stand in `src` between `prev` and it.
pub open spec fn expr_doc(src: Seq<char>, p: &Printer, prev: int, expr: SpannedExpr) -> MaybeDoc
    decreases expr, 2nat,
{
    cat(gap_doc(src, prev, expr.span.start.0 as int), bare_doc(src, p, prev, expr))
}

/// `expr` without the comments before it.
pub open spec fn bare_doc(src: Seq<char>, p: &Printer, prev: int, expr: SpannedExpr) -> MaybeDoc
    decreases expr, 1nat,
{
    match expr.value {
        Expr::App(func, args) => grouped(
            cat(
                own_doc(src, p, *func),
                nested(args_doc(src, p, func.span.end.0 as int, args@, args@.len())),
            ),
        ),
        Expr::Array(_, exprs) => grouped(
            cat_text(cat(text_doc("["@), elems_doc(src, p, exprs@, exprs@.len())), "]"@),
        ),
        Expr::Block(elems) => if elems@.len() == 1 {
            cat_text(cat(text_doc("("@), own_doc(src, p, elems@[0])), ")"@)
        } else {
            lines_doc(src, p, elems@, elems@.len())
        },
        Expr::Ident(id) => Some(ident_doc(id.name@)),
        Expr::IfElse(body, if_true, if_false) => {
            let space = Some(newline_doc(expr));
            let start = cat_text(
                cat(grouped(cat(text_doc("if "@), own_doc(src, p, *body))), Some(DocTree::Space)),
                "then"@,
            );
            let then_part = grouped(nested(cat(space, own_doc(src, p, *if_true))));
            let else_part = grouped(nested(cat(space, own_doc(src, p, *if_false))));
            cat(cat_text(cat(cat(start, then_part), space), "else"@), else_part)
        },
        Expr::Infix(l, op, r) => cat(
            grouped(own_doc(src, p, *l)),
            nested(
                cat(
                    Some(newline_doc(*r).then_text(op.value.name@).then_text(" "@)),
                    grouped(own_doc(src, p, *r)),
                ),
            ),
        ),
        Expr::Lambda(_) => match lambda_doc(src, p, prev, expr) {
            Some((head, body)) => Some(head.group().then_doc(body)),
            None => None,
        },
        Expr::LetBindings(binds, body) => if binds@.len() == 0 {
            None
        } else {
            cat(
                bindings_doc(src, p, binds@, binds@.len()),
                grouped(expr_doc(src, p, binds@[binds@.len() - 1].expr.span.end.0 as int, *body)),
            )
        },
        Expr::Literal(_) => match slice(src, expr.span.start.0 as int, expr.span.end.0 as int) {
            Some(text) => Some(DocTree::Text(text)),
            None => None,
        },
        Expr::Match(value, alts) => cat(
            cat(
                grouped(cat_text(cat(text_doc("match "@), own_doc(src, p, *value)), " with"@)),
                Some(DocTree::Newline),
            ),
            alternatives_doc(src, p, alts@, alts@.len()),
        ),
        Expr::Projection(value, field, _) => cat(
            cat_text(own_doc(src, p, *value), "."@),
            Some(ident_doc(field@)),
        ),
        Expr::Record { .. } => match lambda_doc(src, p, prev, expr) {
            Some((head, body)) => Some(head.then_doc(body).group()),
            None => None,
        },
        Expr::Tuple { typ: _, elems } => grouped(
            cat_text(cat(text_doc("("@), elems_doc(src, p, elems@, elems@.len())), ")"@),
        ),
        Expr::TypeBindings(binds, body) => if binds@.len() == 0 {
            None
        } else {
            grouped(
                cat(
                    cat(
                        Some(comment_doc(binds@[0].comment)),
                        type_bindings_doc(src, p, binds@, binds@.len()),
                    ),
                    expr_doc(src, p, binds@[binds@.len() - 1].alias.span.end.0 as int, *body),
                ),
            )
        },
        Expr::Do(do_) => {
            let id = do_.id.span;
            let start = cat(
                text_doc("do"@),
                separator_in(src, expr.span.start.0 + 2, id.start.0 as int, DocTree::Space),
            );
            let name = cat(start, Some(ident_doc(do_.id.value.name@)));
            let from = cat_text(
                cat(
                    name,
                    separator_in(
                        src,
                        id.end.0 as int,
                        do_.bound.span.start.0 as int,
                        DocTree::Space,
                    ),
                ),
                "="@,
            );
            cat(
                grouped(hang_doc(src, p, from, *do_.bound)),
                grouped(expr_doc(src, p, do_.bound.span.end.0 as int, *do_.body)),
            )
        },
        Expr::Error => Some(DocTree::Text("<error>"@)),
    }
}

/// The entries of a record in the order in which they stand in the source.
fn order_items(types: &Vec<ExprTypeField>, exprs: &Vec<ExprField>) -> (res: Vec<Item>)
    ensures
        res@ == ordered(types@, exprs@, 0, 0),
        forall|k: int| 0 <= k < res@.len() ==> item_in(types@, exprs@, #[trigger] res@[k]),
{
    let ghost whole = ordered(types@, exprs@, 0, 0);
    let mut res: Vec<Item> = Vec::new();
    let mut i: usize = 0;
    let mut j: usize = 0;
    assert(res@ + whole =~= whole);
    while i < types.len() || j < exprs.len()
        invariant
            i <= types@.len(),
            j <= exprs@.len(),
            res@ + ordered(types@, exprs@, i as int, j as int) == whole,
            forall|k: int| 0 <= k < res@.len() ==> item_in(types@, exprs@, #[trigger] res@[k]),
        decreases types@.len() - i + exprs@.len() - j,
    {
        let ghost before = res@;
        let take_type = if i < types.len() && j < exprs.len() {
            types[i].name.span.start.0 < exprs[j].name.span.start.0
        } else {
            i < types.len()
        };
        if take_type {
            res.push(Item::Type(i));
            i += 1;
        } else {
            res.push(Item::Field(j));
            j += 1;
        }
        proof {
            let more = ordered(types@, exprs@, i as int, j as int);
            assert(res@ + more =~= before + (seq![res@.last()] + more));
        }
    }
    assert(res@ + Seq::<Item>::empty() =~= res@);
    res
}

/// `item` is one of the record.
pub open spec fn item_in(types: Seq<ExprTypeField>, exprs: Seq<ExprField>, item: Item) -> bool {
    match item {
        Item::Type(i) => i < types.len(),
        Item::Field(j) => j < exprs.len(),
    }
}

fn span_of_item(types: &Vec<ExprTypeField>, exprs: &Vec<ExprField>, item: Item) -> (res: (
    usize,
    usize,
))
    requires
        item_in(types@, exprs@, item),
    ensures
        res.0 == item_span(types@, exprs@, item).0,
        res.1 == item_span(types@, exprs@, item).1,
{
    match item {
        Item::Type(i) => (
            types[i].name.span.start.0 as usize,
            types[i].name.span.end.0 as usize,
        ),
        Item::Field(j) => (
            exprs[j].name.span.start.0 as usize,
            match &exprs[j].value {
                Some(expr) => expr.span.end.0 as usize,
                None => exprs[j].name.span.start.0 as usize,
            },
        ),
    }
}

/// `comments`, and whether one of them is more than a line break.
pub(crate) fn print_comments(comments: &Vec<String>) -> (res: (Document, bool))
    ensures
        comments_tree(texts(comments@), texts(comments@).len()).0 == res.0@,
        res.1 == (comments_tree(texts(comments@), texts(comments@).len()).1 > 0),
{
    let ghost all = texts(comments@);
    let mut doc = Document::Nil;
    let mut any = false;
    let mut i: usize = 0;
    while i < comments.len()
        invariant
            i <= comments@.len(),
            all == texts(comments@),
            doc@ == comments_tree(all, i as nat).0,
            any == (comments_tree(all, i as nat).1 > 0),
        decreases comments@.len() - i,
    {
        let comment = comments[i].as_str();
        assert(all[i as int] == comment@);
        if comment.is_empty() {
            doc = doc.append(Document::Newline);
        } else {
            any = true;
            if starts_with(comment, "//") {
                doc = doc.append(Document::text(comment).append(Document::Newline));
            } else {
                doc = doc.append(Document::text(comment));
            }
        }
        i += 1;
    }
    (doc, any)
}

fn print_separator(comments: &Vec<String>, default: Document) -> (res: Document)
    ensures
        res@ == separator(texts(comments@), default@),
{
    let doc = print_comments(comments).0;
    if doc.is_nil() {
        default
    } else if comments.len() > 0 && comments[0].as_str().is_empty() {
        assert(texts(comments@)[0] == comments@[0]@);
        doc
    } else {
        assert(comments@.len() > 0 ==> texts(comments@)[0] == comments@[0]@);
        Document::Space.append(doc).append(Document::Space)
    }
}

fn print_idents(args: &Vec<SpannedIdent>) -> (res: Document)
    ensures
        res@ == idents_doc(args@, args@.len()),
{
    let mut doc = Document::Nil;
    let mut i: usize = 0;
    while i < args.len()
        invariant
            i <= args@.len(),
            doc@ == idents_doc(args@, i as nat),
        decreases args@.len() - i,
    {
        doc = doc.append(Document::text(args[i].value.name.as_str()).append_text(" "));
        i += 1;
    }
    doc
}

fn print_alias_params(params: &Vec<Generic>) -> (res: Document)
    ensures
        res@ == alias_params_doc(generics_view(params@), params@.len()),
{
    let ghost all = generics_view(params@);
    let mut doc = Document::Nil;
    let mut i: usize = 0;
    while i < params.len()
        invariant
            i <= params@.len(),
            all == generics_view(params@),
            doc@ == alias_params_doc(all, i as nat),
        decreases params@.len() - i,
    {
        let param = &params[i];
        assert(all[i as int] == param@);
        let plain = match &*param.kind {
            Kind::Type => true,
            Kind::Hole => true,
            _ => false,
        };
        let param_doc = if !plain {
            Document::text("(").append_text(param.id.as_str()).append_text(" :").append(
                Document::Space,
            ).append(pretty_kind(Prec::Top, &param.kind).group()).append_text(")").group()
        } else {
            Document::text(param.id.as_str())
        };
        doc = doc.append(param_doc.append(Document::Space));
        i += 1;
    }
    doc
}

fn is_record_type(typ: &ArcType) -> (res: bool)
    ensures
        res == (typ@ is Record),
{
    match typ.as_type() {
        Type::Record(_) => true,
        _ => false,
    }
}

fn is_hole(typ: &ArcType) -> (res: bool)
    ensures
        res == (typ@ is Hole),
{
    match typ.as_type() {
        Type::Hole => true,
        _ => false,
    }
}

/// The first line of `src` if it starts with `#!`.
pub open spec fn shebang_line(src: Seq<char>) -> Option<Seq<char>> {
    if begins(src, "#!"@) {
        Some(src.take(crate::source::line_end(src, 0)))
    } else {
        None
    }
}

/// `expr` and the comments around it. The first line is kept if it names an interpreter.
pub open spec fn source_doc(src: Seq<char>, p: &Printer, expr: SpannedExpr) -> MaybeDoc {
    cat(
        shebang_doc(src, p, 0, expr),
        gap_doc(src, expr.span.end.0 as int, encode_utf8(src).len() as int),
    )
}

/// `expr` behind the comments from `prev` on, and behind the first line if it names an interpreter.
pub open spec fn shebang_doc(
    src: Seq<char>,
    p: &Printer,
    prev: int,
    expr: SpannedExpr,
) -> MaybeDoc {
    match shebang_line(src) {
        Some(line) => cat(
            text_doc(line),
            expr_doc(src, p, encode_utf8(line).len() as int, expr),
        ),
        None => expr_doc(src, p, prev, expr),
    }
}

/// Prints expressions of a source text.
pub struct ExprPrinter<'a> {
    source: &'a Source,
    printer: Printer,
}

impl<'a> ExprPrinter<'a> {
    /// The source text.
    pub closed spec fn text(&self) -> Seq<char> {
        self.source@
    }

    /// How types are printed.
    pub closed spec fn printer(&self) -> &Printer {
        &self.printer
    }

    pub fn new(source: &'a Source) -> (res: ExprPrinter<'a>)
        ensures
            res.text() == source@,
            forall|name: Seq<char>| #[trigger]
                res.printer().filter_of(name) == crate::types::display::Filter::Retain,
    {
        ExprPrinter { source, printer: Printer::new() }
    }

    /// `expr` in lines of `width` characters that end with `newline`.
    pub fn format(&self, width: usize, newline: &str, expr: &SpannedExpr) -> (res: String)
        requires
            source_doc(self.text(), self.printer(), *expr) is Some,
            encode_utf8(self.text()).len() <= usize::MAX,
            width <= isize::MAX,
        ensures
            ({
                let lines = lines_of(
                    laid_out(source_doc(self.text(), self.printer(), *expr)->0, width),
                );
                res@ == trimmed_lines(lines, newline@, lines.len())
            }),
    {
        let text = self.pretty_expr(expr).pretty(width);
        trim_lines(text.as_str(), newline)
    }

    fn space(&self, start: usize, end: usize) -> (res: Document)
        requires
            slice(self.text(), start as int, end as int) is Some,
        ensures
            gap_or(self.text(), start as int, end as int, DocTree::Space) == Some(res@),
    {
        self.whitespace(start, end, Document::Space)
    }

    fn whitespace(&self, start: usize, end: usize, default: Document) -> (res: Document)
        requires
            slice(self.text(), start as int, end as int) is Some,
        ensures
            gap_or(self.text(), start as int, end as int, default@) == Some(res@),
    {
        let (doc, any) = self.comments_count(start, end);
        if doc.is_nil() {
            default
        } else if !any {
            doc
        } else {
            Document::Space.append(doc).append(Document::Space)
        }
    }

    fn comments(&self, start: usize, end: usize) -> (res: Document)
        requires
            slice(self.text(), start as int, end as int) is Some,
        ensures
            gap_doc(self.text(), start as int, end as int) == Some(res@),
    {
        self.comments_count(start, end).0
    }

    /// The comments in the source, and whether one of them is more than a line break.
    fn comments_count(&self, start: usize, end: usize) -> (res: (Document, bool))
        requires
            slice(self.text(), start as int, end as int) is Some,
        ensures
            gap(self.text(), start as int, end as int) matches Some((doc, count)) && doc == res.0@
                && res.1 == (count > 0),
    {
        print_comments(&self.source.comments_between(start, end))
    }

    /// The comments in the source as what separates two parts.
    fn separator(&self, start: usize, end: usize, default: Document) -> (res: Document)
        requires
            slice(self.text(), start as int, end as int) is Some,
        ensures
            separator_in(self.text(), start as int, end as int, default@) == Some(res@),
    {
        print_separator(&self.source.comments_between(start, end), default)
    }

    fn rev_comments(&self, start: usize, end: usize) -> (res: Document)
        requires
            slice(self.text(), start as int, end as int) is Some,
        ensures
            gap_behind_doc(self.text(), start as int, end as int) == Some(res@),
    {
        let comments = self.source.comments_behind(start, end);
        let ghost all = texts(comments@);
        let mut doc = Document::Nil;
        let mut i: usize = comments.len();
        while i > 0
            invariant
                i <= comments@.len(),
                all == texts(comments@),
                doc@ == line_comments_tree(all, i as int),
            decreases i,
        {
            i -= 1;
            let comment = comments[i].as_str();
            assert(all[i as int] == comment@);
            let start_doc = if comment.is_empty() {
                Document::Nil
            } else {
                Document::text("// ").append_text(comment)
            };
            doc = start_doc.append(Document::Newline).append(doc);
        }
        doc
    }

    /// `expr` and the comments around it.
    pub fn pretty_expr(&self, expr: &SpannedExpr) -> (res: Document)
        requires
            source_doc(self.text(), self.printer(), *expr) is Some,
            encode_utf8(self.text()).len() <= usize::MAX,
        ensures
            source_doc(self.text(), self.printer(), *expr) == Some(res@),
    {
        let doc = self.pretty_expr_with_shebang_line(BytePos(0), expr);
        doc.append(self.comments(expr.span.end.0 as usize, self.source.src().len()))
    }

    fn find_shebang_line(&self) -> (res: Option<&str>)
        ensures
            match res {
                Some(line) => shebang_line(self.text()) == Some(line@),
                None => shebang_line(self.text()) is None,
            },
    {
        let src = self.source.src();
        if starts_with(src, "#!") {
            let len: usize = src.unicode_len();
            let mut i: usize = 0;
            while i < len
                invariant
                    i <= len,
                    len == src@.len(),
                    src@ == self.text(),
                    begins(src@, "#!"@),
                    crate::source::line_end(src@, 0) == crate::source::line_end(src@, i as int),
                decreases len - i,
            {
                if src.get_char(i) == '\n' {
                    assert(src@.subrange(0, i as int) =~= src@.take(i as int));
                    return Some(src.substring_char(0, i));
                }
                i += 1;
            }
            assert(src@.take(len as int) =~= src@);
            Some(src)
        } else {
            None
        }
    }

    /// `expr` behind the comments from `previous_end` on, and behind the first line of the source
    /// if it names an interpreter.
    pub fn pretty_expr_with_shebang_line(&self, previous_end: BytePos, expr: &SpannedExpr) -> (res:
        Document)
        requires
            shebang_doc(self.text(), self.printer(), previous_end.0 as int, *expr) is Some,
            encode_utf8(self.text()).len() <= usize::MAX,
        ensures
            shebang_doc(self.text(), self.printer(), previous_end.0 as int, *expr) == Some(res@),
    {
        match self.find_shebang_line() {
            Some(line) => {
                proof {
                    shebang_fits(self.text());
                }
                Document::text(line).append(self.print_expr(line.len(), expr))
            },
            None => self.print_expr(previous_end.0 as usize, expr),
        }
    }

    /// `expr` behind the comments from `previous_end` on.
    pub fn pretty_expr_(&self, previous_end: BytePos, expr: &SpannedExpr) -> (res: Document)
        requires
            expr_doc(self.text(), self.printer(), previous_end.0 as int, *expr) is Some,
        ensures
            expr_doc(self.text(), self.printer(), previous_end.0 as int, *expr) == Some(res@),
    {
        self.print_expr(previous_end.0 as usize, expr)
    }

    fn own(&self, expr: &SpannedExpr) -> (res: Document)
        requires
            own_doc(self.text(), self.printer(), *expr) is Some,
        ensures
            own_doc(self.text(), self.printer(), *expr) == Some(res@),
        decreases expr, 3nat,
    {
        self.print_expr(expr.span.start.0 as usize, expr)
    }

    fn print_type(&self, ast: &AstType, typ: &ArcType) -> (res: Document)
        requires
            maybe_type(self.printer(), *ast, typ@) is Some,
        ensures
            maybe_type(self.printer(), *ast, typ@) == Some(res@),
    {
        pretty_type(&self.printer, ast, typ)
    }

    fn print_args(&self, end: usize, args: &Vec<SpannedExpr>) -> (res: Document)
        requires
            args_doc(self.text(), self.printer(), end as int, args@, args@.len()) is Some,
        ensures
            args_doc(self.text(), self.printer(), end as int, args@, args@.len()) == Some(res@),
        decreases args@, 0nat,
    {
        let mut doc = Document::Nil;
        let mut i: usize = 0;
        while i < args.len()
            invariant
                i <= args@.len(),
                args_doc(self.text(), self.printer(), end as int, args@, args@.len()) is Some,
                args_doc(self.text(), self.printer(), end as int, args@, i as nat) == Some(doc@),
            decreases args@.len() - i,
        {
            proof {
                args_before(
                    self.text(),
                    self.printer(),
                    end as int,
                    args@,
                    (i + 1) as nat,
                    args@.len(),
                );
                assert(decreases_to!(args@ => args@[i as int]));
            }
            let prev: usize = if i == 0 {
                end
            } else {
                args[i - 1].span.end.0 as usize
            };
            let space = self.space(prev, args[i].span.start.0 as usize);
            doc = doc.append(space.append(self.own(&args[i])));
            i += 1;
        }
        doc
    }

    fn print_elems(&self, exprs: &Vec<SpannedExpr>) -> (res: Document)
        requires
            elems_doc(self.text(), self.printer(), exprs@, exprs@.len()) is Some,
        ensures
            elems_doc(self.text(), self.printer(), exprs@, exprs@.len()) == Some(res@),
        decreases exprs@, 0nat,
    {
        let mut doc = Document::Nil;
        let mut i: usize = 0;
        while i < exprs.len()
            invariant
                i <= exprs@.len(),
                elems_doc(self.text(), self.printer(), exprs@, exprs@.len()) is Some,
                elems_doc(self.text(), self.printer(), exprs@, i as nat) == Some(doc@),
            decreases exprs@.len() - i,
        {
            proof {
                elems_before(self.text(), self.printer(), exprs@, (i + 1) as nat, exprs@.len());
                assert(decreases_to!(exprs@ => exprs@[i as int]));
            }
            if i > 0 {
                doc = doc.append(Document::text(",").append(Document::Space));
            }
            doc = doc.append(self.own(&exprs[i]));
            i += 1;
        }
        doc
    }

    fn print_lines(&self, exprs: &Vec<SpannedExpr>) -> (res: Document)
        requires
            lines_doc(self.text(), self.printer(), exprs@, exprs@.len()) is Some,
        ensures
            lines_doc(self.text(), self.printer(), exprs@, exprs@.len()) == Some(res@),
        decreases exprs@, 0nat,
    {
        let mut doc = Document::Nil;
        let mut i: usize = 0;
        while i < exprs.len()
            invariant
                i <= exprs@.len(),
                lines_doc(self.text(), self.printer(), exprs@, exprs@.len()) is Some,
                lines_doc(self.text(), self.printer(), exprs@, i as nat) == Some(doc@),
            decreases exprs@.len() - i,
        {
            proof {
                lines_before(self.text(), self.printer(), exprs@, (i + 1) as nat, exprs@.len());
                assert(decreases_to!(exprs@ => exprs@[i as int]));
            }
            if i > 0 {
                let between = self.separator(
                    exprs[i - 1].span.end.0 as usize,
                    exprs[i].span.start.0 as usize,
                    Document::Newline,
                );
                doc = doc.append(between);
            }
            doc = doc.append(self.own(&exprs[i]).group());
            i += 1;
        }
        doc
    }

    fn print_alternatives(&self, alts: &Vec<Alternative>) -> (res: Document)
        requires
            alternatives_doc(self.text(), self.printer(), alts@, alts@.len()) is Some,
        ensures
            alternatives_doc(self.text(), self.printer(), alts@, alts@.len()) == Some(res@),
        decreases alts@, 0nat,
    {
        let mut doc = Document::Nil;
        let mut i: usize = 0;
        while i < alts.len()
            invariant
                i <= alts@.len(),
                alternatives_doc(self.text(), self.printer(), alts@, alts@.len()) is Some,
                alternatives_doc(self.text(), self.printer(), alts@, i as nat) == Some(doc@),
            decreases alts@.len() - i,
        {
            proof {
                alternatives_before(
                    self.text(),
                    self.printer(),
                    alts@,
                    (i + 1) as nat,
                    alts@.len(),
                );
                assert(decreases_to!(alts@ => alts@[i as int]));
            }
            if i > 0 {
                doc = doc.append(Document::Newline);
            }
            let alt = Document::text("| ").append(pretty_pattern(&alts[i].pattern)).append_text(
                " ->",
            );
            doc = doc.append(alt.append(self.hang(Document::Nil, &alts[i].expr).group()));
            i += 1;
        }
        doc
    }

    fn print_binding(&self, prefix: &str, bind: &ValueBinding) -> (res: Document)
        requires
            binding_doc(self.text(), self.printer(), prefix@, *bind) is Some,
        ensures
            binding_doc(self.text(), self.printer(), prefix@, *bind) == Some(res@),
        decreases bind, 0nat,
    {
        let name = pretty_pattern(&bind.name).append_text(" ").append(
            print_idents(&bind.args),
        ).group();
        let typ = match &bind.typ {
            None => Document::Nil,
            Some(typ) => if is_hole(&typ.typ) {
                Document::Nil
            } else {
                Document::text(": ").append(self.print_type(typ, &typ.typ)).append(Document::Space)
            },
        };
        let decl = Document::text(prefix).append(name).append(typ).append_text("=");
        doc_comment(&bind.comment).append(self.hang(decl, &bind.expr).group())
    }

    fn print_bindings(&self, binds: &Vec<ValueBinding>) -> (res: Document)
        requires
            bindings_doc(self.text(), self.printer(), binds@, binds@.len()) is Some,
        ensures
            bindings_doc(self.text(), self.printer(), binds@, binds@.len()) == Some(res@),
        decreases binds@, 0nat,
    {
        let mut doc = Document::Nil;
        let mut i: usize = 0;
        while i < binds.len()
            invariant
                i <= binds@.len(),
                bindings_doc(self.text(), self.printer(), binds@, binds@.len()) is Some,
                bindings_doc(self.text(), self.printer(), binds@, i as nat) == Some(doc@),
            decreases binds@.len() - i,
        {
            proof {
                bindings_before(self.text(), self.printer(), binds@, (i + 1) as nat, binds@.len());
                assert(decreases_to!(binds@ => binds@[i as int]));
            }
            let prefix = if i == 0 {
                "let "
            } else {
                let comments = self.comments(
                    binds[i - 1].expr.span.end.0 as usize,
                    binds[i].name.span.start.0 as usize,
                );
                doc = doc.append(comments);
                "and "
            };
            doc = doc.append(self.print_binding(prefix, &binds[i]));
            i += 1;
        }
        doc
    }

    fn print_type_binding(&self, prefix: &str, bind: &TypeBinding) -> (res: Document)
        requires
            type_binding_doc(self.printer(), prefix@, *bind) is Some,
        ensures
            type_binding_doc(self.printer(), prefix@, *bind) == Some(res@),
    {
        let data = &bind.alias.value;
        let typ = data.unresolved_type();
        let type_doc = if is_record_type(typ) {
            self.print_type(&bind.aliased_type, typ)
        } else {
            self.print_type(&bind.aliased_type, typ).nest()
        };
        let params = data.params();
        assert(generics_view(params@).len() == params@.len());
        let start = Document::text(prefix).append_text(" ").append_text(
            bind.name.value.as_str(),
        ).append_text(" ").append(print_alias_params(params).group());
        start.append(Document::text("= ").append(type_doc).group()).group()
    }

    fn print_type_bindings(&self, binds: &Vec<TypeBinding>) -> (res: Document)
        requires
            type_bindings_doc(self.text(), self.printer(), binds@, binds@.len()) is Some,
        ensures
            type_bindings_doc(self.text(), self.printer(), binds@, binds@.len()) == Some(res@),
    {
        let mut doc = Document::Nil;
        let mut i: usize = 0;
        while i < binds.len()
            invariant
                i <= binds@.len(),
                type_bindings_doc(self.text(), self.printer(), binds@, binds@.len()) is Some,
                type_bindings_doc(self.text(), self.printer(), binds@, i as nat) == Some(doc@),
            decreases binds@.len() - i,
        {
            proof {
                type_bindings_before(
                    self.text(),
                    self.printer(),
                    binds@,
                    (i + 1) as nat,
                    binds@.len(),
                );
            }
            let prefix = if i == 0 {
                "type"
            } else {
                let comments = self.comments(
                    binds[i - 1].alias.span.end.0 as usize,
                    binds[i].name.span.start.0 as usize,
                );
                doc = doc.append(comments);
                "and"
            };
            doc = doc.append(self.print_type_binding(prefix, &binds[i]));
            i += 1;
        }
        doc
    }

    fn print_expr(&self, previous_end: usize, expr: &SpannedExpr) -> (res: Document)
        requires
            expr_doc(self.text(), self.printer(), previous_end as int, *expr) is Some,
        ensures
            expr_doc(self.text(), self.printer(), previous_end as int, *expr) == Some(res@),
        decreases expr, 2nat,
    {
        let comments = self.comments(previous_end, expr.span.start.0 as usize);
        comments.append(self.print_bare(previous_end, expr))
    }

    fn print_bare(&self, previous_end: usize, expr: &SpannedExpr) -> (res: Document)
        requires
            bare_doc(self.text(), self.printer(), previous_end as int, *expr) is Some,
        ensures
            bare_doc(self.text(), self.printer(), previous_end as int, *expr) == Some(res@),
        decreases expr, 1nat,
    {
        match &expr.value {
            Expr::App(func, args) => {
                let func_doc = self.own(func);
                func_doc.append(self.print_args(func.span.end.0 as usize, args).nest()).group()
            },
            Expr::Array(_, exprs) => Document::text("[").append(
                self.print_elems(exprs),
            ).append_text("]").group(),
            Expr::Block(elems) => {
                if elems.len() == 1 {
                    assert(decreases_to!(elems@ => elems@[0]));
                    Document::text("(").append(self.own(&elems[0])).append_text(")")
                } else {
                    self.print_lines(elems)
                }
            },
            Expr::Ident(id) => ident(id.name.as_str()),
            Expr::IfElse(body, if_true, if_false) => {
                let start = Document::text("if ").append(self.own(body)).group().append(
                    Document::Space,
                ).append_text("then");
                let then_part = newline(expr).append(self.own(if_true)).nest().group();
                let else_part = newline(expr).append(self.own(if_false)).nest().group();
                start.append(then_part).append(newline(expr)).append_text("else").append(else_part)
            },
            Expr::Infix(l, op, r) => {
                let left = self.own(l).group();
                let right = newline(r).append_text(op.value.name.as_str()).append_text(
                    " ",
                ).append(self.own(r).group());
                left.append(right.nest())
            },
            Expr::Lambda(_) => {
                let (arguments, body) = self.print_lambda(previous_end, expr);
                arguments.group().append(body)
            },
            Expr::LetBindings(binds, body) => {
                let doc = self.print_bindings(binds);
                let end: usize = binds[binds.len() - 1].expr.span.end.0 as usize;
                doc.append(self.print_expr(end, body).group())
            },
            Expr::Literal(_) => Document::text(
                self.source.slice(expr.span.start.0 as usize, expr.span.end.0 as usize),
            ),
            Expr::Match(value, alts) => {
                let start = Document::text("match ").append(self.own(value)).append_text(
                    " with",
                ).group();
                start.append(Document::Newline).append(self.print_alternatives(alts))
            },
            Expr::Projection(value, field, _) => self.own(value).append_text(".").append(
                ident(field.as_str()),
            ),
            Expr::Record { .. } => {
                let (x, y) = self.print_lambda(previous_end, expr);
                x.append(y).group()
            },
            Expr::Tuple { typ: _, elems } => Document::text("(").append(
                self.print_elems(elems),
            ).append_text(")").group(),
            Expr::TypeBindings(binds, body) => {
                let doc = doc_comment(&binds[0].comment).append(self.print_type_bindings(binds));
                let end: usize = binds[binds.len() - 1].alias.span.end.0 as usize;
                doc.append(self.print_expr(end, body)).group()
            },
            Expr::Do(do_) => {
                let id = &do_.id;
                let start = Document::text("do").append(
                    self.separator(
                        expr.span.start.0 as usize + 2,
                        id.span.start.0 as usize,
                        Document::Space,
                    ),
                );
                let from = start.append(ident(id.value.name.as_str())).append(
                    self.separator(
                        id.span.end.0 as usize,
                        do_.bound.span.start.0 as usize,
                        Document::Space,
                    ),
                ).append_text("=");
                let bound = self.hang(from, &do_.bound).group();
                bound.append(self.print_expr(do_.bound.span.end.0 as usize, &do_.body).group())
            },
            Expr::Error => Document::text("<error>"),
        }
    }

    /// The gaps between the entries of a record, and whether one of them is not empty.
    fn item_gaps(
        &self,
        types: &Vec<ExprTypeField>,
        exprs: &Vec<ExprField>,
        items: &Vec<Item>,
    ) -> (res: (Vec<(Document, Document)>, bool))
        requires
            forall|k: int| 0 <= k < items@.len() ==> item_in(types@, exprs@, #[trigger] items@[k]),
            any_gap(self.text(), types@, exprs@, items@, (items@.len() - 1) as nat) is Some,
        ensures
            items@.len() > 0 ==> res.0@.len() == items@.len() - 1,
            forall|k: int|
                0 <= k < res.0@.len() ==> item_gap(self.text(), types@, exprs@, items@, k) == Some(
                    ((#[trigger] res.0@[k]).0@, res.0@[k].1@),
                ),
            any_gap(self.text(), types@, exprs@, items@, (items@.len() - 1) as nat) == Some(res.1),
    {
        let mut gaps: Vec<(Document, Document)> = Vec::new();
        let mut any = false;
        let ghost src = self.text();
        let mut i: usize = 0;
        if items.len() > 0 {
            while i < items.len() - 1
                invariant
                    i <= items@.len() - 1,
                    items@.len() > 0,
                    src == self.text(),
                    gaps@.len() == i,
                    forall|k: int|
                        0 <= k < items@.len() ==> item_in(types@, exprs@, #[trigger] items@[k]),
                    any_gap(src, types@, exprs@, items@, (items@.len() - 1) as nat) is Some,
                    any_gap(src, types@, exprs@, items@, i as nat) == Some(any),
                    forall|k: int|
                        0 <= k < gaps@.len() ==> item_gap(src, types@, exprs@, items@, k) == Some(
                            ((#[trigger] gaps@[k]).0@, gaps@[k].1@),
                        ),
                decreases items@.len() - i,
            {
                proof {
                    any_gap_before(
                        src,
                        types@,
                        exprs@,
                        items@,
                        (i + 1) as nat,
                        (items@.len() - 1) as nat,
                    );
                    assert(item_in(types@, exprs@, items@[i as int]));
                    assert(item_in(types@, exprs@, items@[i + 1]));
                }
                let start: usize = span_of_item(types, exprs, items[i]).1;
                let end: usize = span_of_item(types, exprs, items[i + 1]).0;
                let l = self.comments(start, end);
                let r = self.rev_comments(start, end);
                if !l.is_nil() || !r.is_nil() {
                    any = true;
                }
                gaps.push((l, r));
                i += 1;
            }
        }
        (gaps, any)
    }

    /// The name of a field and the equals sign, with the comments around it.
    fn print_head(&self, id: Document, start: usize, end: usize) -> (res: Document)
        requires
            slice(self.text(), start as int, end as int) is Some,
        ensures
            res@ == field_head(id@, slice(self.text(), start as int, end as int)->0),
    {
        let before = self.source.comments_between(start, end);
        let any = print_comments(&before).1;
        let head = if any {
            id.append(print_separator(&before, Document::Space)).append_text("=")
        } else {
            id.append_text(" =")
        };
        let (behind, any) = print_comments(&self.source.comments_behind(start, end));
        if any {
            head.append(Document::Space).append(behind)
        } else {
            head
        }
    }

    /// What stands before the first entry of a record.
    fn print_lead(&self, start: usize, end: usize, line: Document) -> (res: Document)
        requires
            slice(self.text(), start as int, end as int) is Some,
        ensures
            lead_doc(self.text(), start as int, end as int, line@) == Some(res@),
    {
        let comments = self.source.comments_between(start, end);
        let any = print_comments(&comments).1;
        if any {
            print_separator(&comments, line)
        } else {
            line
        }
    }

    fn print_item(&self, types: &Vec<ExprTypeField>, exprs: &Vec<ExprField>, item: Item) -> (res:
        Document)
        requires
            item_in(types@, exprs@, item),
            item_doc(self.text(), self.printer(), types@, exprs@, item) is Some,
        ensures
            item_doc(self.text(), self.printer(), types@, exprs@, item) == Some(res@),
        decreases exprs@, 0nat,
    {
        match item {
            Item::Type(i) => ident(types[i].name.value.as_str()),
            Item::Field(j) => {
                assert(decreases_to!(exprs@ => exprs@[j as int]));
                let id = ident(exprs[j].name.value.as_str());
                match &exprs[j].value {
                    Some(expr) => {
                        let head = self.print_head(
                            id,
                            exprs[j].name.span.end.0 as usize,
                            expr.span.start.0 as usize,
                        );
                        self.hang(head, expr)
                    },
                    None => id,
                }
            },
        }
    }

    #[verifier::rlimit(30)]
    fn print_items(
        &self,
        types: &Vec<ExprTypeField>,
        exprs: &Vec<ExprField>,
        items: &Vec<Item>,
        gaps: Vec<(Document, Document)>,
        line: &Document,
    ) -> (res: Document)
        requires
            items@.len() > 0 ==> gaps@.len() == items@.len() - 1,
            forall|k: int| 0 <= k < items@.len() ==> item_in(types@, exprs@, #[trigger] items@[k]),
            forall|k: int|
                0 <= k < gaps@.len() ==> item_gap(self.text(), types@, exprs@, items@, k) == Some(
                    ((#[trigger] gaps@[k]).0@, gaps@[k].1@),
                ),
            items_doc(
                self.text(),
                self.printer(),
                types@,
                exprs@,
                items@,
                line@,
                items@.len(),
            ) is Some,
        ensures
            items_doc(
                self.text(),
                self.printer(),
                types@,
                exprs@,
                items@,
                line@,
                items@.len(),
            ) == Some(res@),
        decreases exprs@, 1nat,
    {
        let ghost src = self.text();
        let ghost p = self.printer();
        let mut doc = Document::Nil;
        let mut i: usize = 0;
        while i < items.len()
            invariant
                i <= items@.len(),
                src == self.text(),
                p == self.printer(),
                items@.len() > 0 ==> gaps@.len() == items@.len() - 1,
                forall|k: int|
                    0 <= k < items@.len() ==> item_in(types@, exprs@, #[trigger] items@[k]),
                forall|k: int|
                    0 <= k < gaps@.len() ==> item_gap(src, types@, exprs@, items@, k) == Some(
                        ((#[trigger] gaps@[k]).0@, gaps@[k].1@),
                    ),
                items_doc(src, p, types@, exprs@, items@, line@, items@.len()) is Some,
                items_doc(src, p, types@, exprs@, items@, line@, i as nat) == Some(doc@),
            decreases items@.len() - i,
        {
            proof {
                items_before(
                    src,
                    p,
                    types@,
                    exprs@,
                    items@,
                    line@,
                    (i + 1) as nat,
                    items@.len(),
                );
                assert(item_in(types@, exprs@, items@[i as int]));
            }
            if i > 0 {
                let (l, r) = (gaps[i - 1].0.copy(), &gaps[i - 1].1);
                let behind = if r.is_nil() {
                    line.copy()
                } else {
                    r.copy()
                };
                doc = doc.append(l.append_text(",").append(behind));
            }
            doc = doc.append(self.print_item(types, exprs, items[i]));
            i += 1;
        }
        doc
    }

    /// The head and the body of a lambda or a record.
    fn print_lambda(&self, previous_end: usize, expr: &SpannedExpr) -> (res: (Document, Document))
        requires
            lambda_doc(self.text(), self.printer(), previous_end as int, *expr) is Some,
        ensures
            lambda_doc(self.text(), self.printer(), previous_end as int, *expr) == Some(
                (res.0@, res.1@),
            ),
        decreases expr, 0nat,
    {
        match &expr.value {
            Expr::Lambda(lambda) => {
                let decl = Document::text("\\").append(print_idents(&lambda.args)).append_text("->");
                let (next_lambda, body) = self.pretty_lambda(previous_end, &lambda.body);
                if next_lambda.is_nil() {
                    (decl, body)
                } else {
                    (decl.append(Document::Space).append(next_lambda), body)
                }
            },
            Expr::Record { typ: _, types, exprs, base } => {
                let items = order_items(types, exprs);
                // Preserve comments before and after the comma
                let (gaps, any) = self.item_gaps(types, exprs, &items);
                // If there are any explicit line breaks then we need put each field on a separate
                // line
                let line = if any {
                    Document::Newline
                } else {
                    newline(expr)
                };
                let (start, last_field_end) = if items.len() == 0 {
                    (Document::Nil, expr.span.start.0 as usize)
                } else {
                    assert(item_in(types@, exprs@, items@[items@.len() - 1]));
                    assert(item_in(types@, exprs@, items@[0]));
                    let lead = self.print_lead(
                        expr.span.start.0 as usize + 1,
                        span_of_item(types, exprs, items[0]).0,
                        line.copy(),
                    );
                    (lead, span_of_item(types, exprs, items[items.len() - 1]).1)
                };
                let fields = self.print_items(types, exprs, &items, gaps, &line);
                let fields = start.append(fields);
                let record = match base {
                    None => {
                        let end: usize = expr.span.end.0 as usize;
                        let close = if items.len() == 0 && last_field_end < end {
                            self.print_lead(last_field_end + 1, end, line)
                        } else {
                            self.whitespace(last_field_end, end, line)
                        };
                        fields.nest().append(close)
                    },
                    Some(base) => {
                        let from: usize = if items.len() == 0 {
                            expr.span.start.0 as usize + 1
                        } else {
                            last_field_end
                        };
                        let base_doc = self.print_base(from, items.len() > 0, line.copy(), base);
                        let end = self.separator(
                            base.span.end.0 as usize,
                            expr.span.end.0 as usize,
                            line,
                        );
                        fields.append(base_doc).nest().append(end)
                    },
                };
                (Document::text("{"), record.group().append_text("}"))
            },
            _ => (Document::Nil, Document::Nil),
        }
    }

    fn print_base(&self, from: usize, comma: bool, line: Document, base: &SpannedExpr) -> (res:
        Document)
        requires
            base_doc(self.text(), self.printer(), from as int, comma, line@, *base) is Some,
        ensures
            base_doc(self.text(), self.printer(), from as int, comma, line@, *base) == Some(res@),
        decreases base, 4nat,
    {
        let (first, second, third) = self.source.comments_before_base(
            from,
            base.span.start.0 as usize,
        );
        let start = if comma {
            print_comments(&first).0.append_text(",")
        } else {
            Document::Nil
        };
        start.append(print_separator(&second, line)).append_text("..").append(
            print_separator(&third, Document::Space),
        ).append(self.own(base))
    }

    fn pretty_lambda(&self, previous_end: usize, expr: &SpannedExpr) -> (res: (Document, Document))
        requires
            hanging_doc(self.text(), self.printer(), previous_end as int, *expr) is Some,
        ensures
            hanging_doc(self.text(), self.printer(), previous_end as int, *expr) == Some(
                (res.0@, res.1@),
            ),
        decreases expr, 3nat,
    {
        match &expr.value {
            Expr::Lambda(_) => self.print_lambda(previous_end, expr),
            Expr::Record { .. } => self.print_lambda(previous_end, expr),
            _ => (Document::Nil, newline(expr).append(self.print_expr(previous_end, expr))),
        }
    }

    fn hang(&self, from: Document, expr: &SpannedExpr) -> (res: Document)
        requires
            hang_doc(self.text(), self.printer(), Some(from@), *expr) is Some,
        ensures
            hang_doc(self.text(), self.printer(), Some(from@), *expr) == Some(res@),
        decreases expr, 4nat,
    {
        let (arguments, body) = self.pretty_lambda(expr.span.start.0 as usize, expr);
        let first = if arguments.is_nil() {
            Document::Nil
        } else {
            Document::Space
        };
        let body = match &expr.value {
            Expr::Record { .. } => body,
            _ => body.nest(),
        };
        from.append(first).append(arguments).group().append(body).group()
    }
}

proof fn shebang_fits(src: Seq<char>)
    requires
        shebang_line(src) is Some,
        encode_utf8(src).len() <= usize::MAX,
    ensures
        encode_utf8(shebang_line(src)->0).len() <= usize::MAX,
{
    crate::source::line_end_bounds(src, 0);
    let n = crate::source::line_end(src, 0);
    let line = src.take(n);
    let rest = src.skip(n);
    assert(src =~= line + rest);
    encoded_concat(line, rest);
}

proof fn encoded_concat(a: Seq<char>, b: Seq<char>)
    ensures
        encode_utf8(a + b) == encode_utf8(a) + encode_utf8(b),
    decreases a.len(),
{
    if a.len() == 0 {
        assert(a + b =~= b);
        assert(encode_utf8(a) =~= Seq::<u8>::empty());
        assert(Seq::<u8>::empty() + encode_utf8(b) =~= encode_utf8(b));
    } else {
        assert((a + b).drop_first() =~= a.drop_first() + b);
        encoded_concat(a.drop_first(), b);
        assert(encode_utf8(a + b) =~= encode_utf8(a) + encode_utf8(b));
    }
}

proof fn args_before(src: Seq<char>, p: &Printer, end: int, args: Seq<SpannedExpr>, m: nat, n: nat)
    requires
        m <= n <= args.len(),
        args_doc(src, p, end, args, n) is Some,
    ensures
        args_doc(src, p, end, args, m) is Some,
    decreases n,
{
    if m < n {
        args_before(src, p, end, args, m, (n - 1) as nat);
    }
}

proof fn elems_before(src: Seq<char>, p: &Printer, exprs: Seq<SpannedExpr>, m: nat, n: nat)
    requires
        m <= n <= exprs.len(),
        elems_doc(src, p, exprs, n) is Some,
    ensures
        elems_doc(src, p, exprs, m) is Some,
    decreases n,
{
    if m < n {
        elems_before(src, p, exprs, m, (n - 1) as nat);
    }
}

proof fn lines_before(src: Seq<char>, p: &Printer, exprs: Seq<SpannedExpr>, m: nat, n: nat)
    requires
        m <= n <= exprs.len(),
        lines_doc(src, p, exprs, n) is Some,
    ensures
        lines_doc(src, p, exprs, m) is Some,
    decreases n,
{
    if m < n {
        lines_before(src, p, exprs, m, (n - 1) as nat);
    }
}

proof fn alternatives_before(src: Seq<char>, p: &Printer, alts: Seq<Alternative>, m: nat, n: nat)
    requires
        m <= n <= alts.len(),
        alternatives_doc(src, p, alts, n) is Some,
    ensures
        alternatives_doc(src, p, alts, m) is Some,
    decreases n,
{
    if m < n {
        alternatives_before(src, p, alts, m, (n - 1) as nat);
    }
}

proof fn bindings_before(src: Seq<char>, p: &Printer, binds: Seq<ValueBinding>, m: nat, n: nat)
    requires
        m <= n <= binds.len(),
        bindings_doc(src, p, binds, n) is Some,
    ensures
        bindings_doc(src, p, binds, m) is Some,
    decreases n,
{
    if m < n {
        bindings_before(src, p, binds, m, (n - 1) as nat);
    }
}

proof fn type_bindings_before(src: Seq<char>, p: &Printer, binds: Seq<TypeBinding>, m: nat, n: nat)
    requires
        m <= n <= binds.len(),
        type_bindings_doc(src, p, binds, n) is Some,
    ensures
        type_bindings_doc(src, p, binds, m) is Some,
    decreases n,
{
    if m < n {
        type_bindings_before(src, p, binds, m, (n - 1) as nat);
    }
}

proof fn any_gap_before(
    src: Seq<char>,
    types: Seq<ExprTypeField>,
    exprs: Seq<ExprField>,
    items: Seq<Item>,
    m: nat,
    n: nat,
)
    requires
        m <= n < items.len(),
        any_gap(src, types, exprs, items, n) is Some,
    ensures
        any_gap(src, types, exprs, items, m) is Some,
    decreases n,
{
    if m < n {
        any_gap_before(src, types, exprs, items, m, (n - 1) as nat);
    }
}

proof fn items_before(
    src: Seq<char>,
    p: &Printer,
    types: Seq<ExprTypeField>,
    exprs: Seq<ExprField>,
    items: Seq<Item>,
    line: DocTree,
    m: nat,
    n: nat,
)
    requires
        m <= n <= items.len(),
        items_doc(src, p, types, exprs, items, line, n) is Some,
    ensures
        items_doc(src, p, types, exprs, items, line, m) is Some,
    decreases n,
{
    if m < n {
        items_before(src, p, types, exprs, items, line, m, (n - 1) as nat);
    }
}

} // verus!
