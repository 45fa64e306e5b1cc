//! Printing of types.

use vstd::prelude::*;
use crate::ast::AstType;
use crate::doc::{enclosed, ident, ident_doc, DocTree, Document};
use crate::metadata::Comment;
use crate::pretty_print::{comment_doc, comments_tree, doc_comment, print_comments};
use crate::source::texts;
use crate::symbol::{last_part, Symbol};
use crate::symbol_map::{contains_symbol, names};
use crate::text::{begins, decimal, decimal_string, starts_with};
use crate::types::model::{parts_decrease, FieldTy, GenericTy, Ty};
use crate::types::query::{function_parts, function_parts_decrease, is_tuple_ty, lacks_argument};
use crate::types::rows::{row_fields, type_fields};
use crate::types::{
    fields_view, generics_view, symbols_view, type_fields_view, types_view, ArcType, ArgType,
    BuiltinType, Field, Generic, Type, TypeField,
};

verus! {

/// What a type stands in.
#[derive(Copy, Clone, Eq, PartialEq, Structural, Debug)]
pub enum Prec {
    /// The type exists in the top context, no parentheses needed.
    Top,
    /// The type exists in a function argument `Type -> a`, parentheses are
    /// needed if the type is a function `(b -> c) -> a`.
    Function,
    /// The type exists in a constructor argument `Option Type`, parentheses
    /// are needed for functions or other constructors `Option (a -> b)`
    /// `Option (Result a b)`.
    Constructor,
}

impl Prec {
    /// Whether parentheses are needed from `limit` on.
    pub open spec fn needs_parens(self, limit: Prec) -> bool {
        match limit {
            Prec::Top => true,
            Prec::Function => !(self is Top),
            Prec::Constructor => self is Constructor,
        }
    }

    /// `doc` in parentheses, if they are needed from `limit` on.
    pub fn enclose(&self, limit: Prec, doc: Document) -> (res: Document)
        ensures
            res@ == enclosed(self.needs_parens(limit), doc@),
    {
        let yes = match limit {
            Prec::Top => true,
            Prec::Function => *self != Prec::Top,
            Prec::Constructor => *self == Prec::Constructor,
        };
        Document::enclose(yes, doc)
    }
}

/// What is printed of a field.
#[derive(Copy, Clone, Eq, PartialEq, Structural, Debug)]
pub enum Filter {
    /// Nothing
    Drop,
    /// Its name
    RetainKey,
    /// Its name and its type
    Retain,
}

/// How types are printed.
pub struct Printer {
    /// The fields of which nothing is printed.
    pub dropped: Vec<Symbol>,
    /// The fields of which only the names are printed.
    pub shortened: Vec<Symbol>,
}

impl Printer {
    /// What is printed of the field `name`.
    pub open spec fn filter_of(&self, name: Seq<char>) -> Filter {
        if names(self.dropped@).contains(name) {
            Filter::Drop
        } else if names(self.shortened@).contains(name) {
            Filter::RetainKey
        } else {
            Filter::Retain
        }
    }

    /// All fields are printed.
    pub open spec fn keeps_all(&self) -> bool {
        forall|name: Seq<char>| #[trigger] self.filter_of(name) == Filter::Retain
    }

    /// A printer that prints all fields.
    pub fn new() -> (res: Printer)
        ensures
            forall|name: Seq<char>| #[trigger] res.filter_of(name) == Filter::Retain,
    {
        Printer { dropped: Vec::new(), shortened: Vec::new() }
    }

    /// What is printed of the field `name`.
    pub fn filter(&self, name: &Symbol) -> (res: Filter)
        ensures
            res == self.filter_of(name@),
    {
        if contains_symbol(&self.dropped, name) {
            Filter::Drop
        } else if contains_symbol(&self.shortened, name) {
            Filter::RetainKey
        } else {
            Filter::Retain
        }
    }
}

/// A record or the like, by its brackets.
#[derive(Copy, Clone, Eq, PartialEq, Structural, Debug)]
pub enum Brackets {
    Record,
    Tuple,
    Effect,
}

impl Brackets {
    pub open spec fn open(self) -> Seq<char> {
        match self {
            Brackets::Record => "{"@,
            Brackets::Tuple => "("@,
            Brackets::Effect => "[|"@,
        }
    }

    pub open spec fn close(self) -> Seq<char> {
        match self {
            Brackets::Record => "}"@,
            Brackets::Tuple => ")"@,
            Brackets::Effect => "|]"@,
        }
    }

    /// What stands before the type of the field `name`, which has the comment `comment`.
    pub open spec fn field_start(self, comment: Option<Comment>, name: Seq<char>) -> DocTree {
        match self {
            Brackets::Tuple => DocTree::Nil,
            _ => comment_doc(comment).then_doc(ident_doc(name)).then_text(" : "@),
        }
    }
}

/// The part of a row that is printed so far.
pub struct RowTree {
    pub doc: DocTree,
    /// Something was left out.
    pub filtered: bool,
    /// How many fields there were.
    pub index: nat,
}

/// How a row is printed.
pub struct RowStyle {
    pub brackets: Brackets,
    /// How many associated types there are.
    pub types: nat,
    /// How many fields there are up to the end of the first part of the row that has any.
    pub fields: nat,
    /// A field of that part is printed.
    pub any_field: bool,
    /// A field of that part has a comment, so that each entry stands on a line of its own.
    pub broken: bool,
}

/// A type as it stands in source text, where it comes from there.
pub type Marked = Option<AstType>;

/// The part `i` of a type as it stands in source text.
pub open spec fn part(a: Marked, i: int) -> Marked {
    match a {
        Some(ast) => if 0 <= i < ast.parts@.len() {
            Some(ast.parts@[i])
        } else {
            None
        },
        None => None,
    }
}

/// The comment that documents a type.
pub open spec fn comment_of(a: Marked) -> Option<Comment> {
    match a {
        Some(ast) => ast.comment,
        None => None,
    }
}

/// The comments that stand before a type, with what separates them from it.
pub open spec fn before_doc(a: Marked) -> DocTree {
    match a {
        Some(ast) => {
            let comments = texts(ast.before@);
            let (doc, count) = comments_tree(comments, comments.len());
            if count == 0 {
                DocTree::Nil
            } else if ends_line(comments) {
                doc
            } else {
                doc.then_doc(DocTree::Space)
            }
        },
        None => DocTree::Nil,
    }
}

/// The last of `comments` ends its line.
pub open spec fn ends_line(comments: Seq<Seq<char>>) -> bool {
    comments.len() > 0 && (comments.last().len() == 0 || begins(comments.last(), "//"@))
}

/// The comments that stand behind a type, between spaces, or a space if there are none.
pub open spec fn after_doc(a: Marked) -> DocTree {
    match a {
        Some(ast) => {
            let comments = texts(ast.after@);
            let (doc, count) = comments_tree(comments, comments.len());
            if count == 0 {
                DocTree::Space
            } else {
                DocTree::Space.then_doc(doc).then_doc(DocTree::Space)
            }
        },
        None => DocTree::Space,
    }
}

/// Whether the comments before `t` are those of its first part.
pub open spec fn begins_with_part(t: Ty) -> bool {
    t is App || t is ExtendRow || t is ExtendTypeRow || t is Variant || t is Function
}

/// One of the first `n` parts has a comment.
pub open spec fn parts_commented(a: Marked, n: nat) -> bool {
    exists|i: int| 0 <= i < n && comment_of(#[trigger] part(a, i)) is Some
}

/// A field of the row `t` has a comment.
pub open spec fn row_commented(a: Marked, t: Ty) -> bool
    decreases t,
{
    match t {
        Ty::Record(row) => row_commented(part(a, 0), *row),
        Ty::Variant(row) => row_commented(part(a, 0), *row),
        Ty::ExtendRow(fields, rest) => parts_commented(a, fields.len()) || row_commented(
            part(a, fields.len() as int),
            *rest,
        ),
        Ty::ExtendTypeRow(types, rest) => row_commented(part(a, types.len() as int), *rest),
        _ => false,
    }
}

/// A field of the first part of the row `t` that has fields has a comment.
pub open spec fn first_commented(a: Marked, t: Ty) -> bool
    decreases t,
{
    match t {
        Ty::ExtendRow(fields, _) => parts_commented(a, fields.len()),
        Ty::ExtendTypeRow(types, rest) => first_commented(part(a, types.len() as int), *rest),
        _ => false,
    }
}

/// A line break, or a space that may become one.
pub open spec fn line(broken: bool) -> DocTree {
    if broken {
        DocTree::Newline
    } else {
        DocTree::Space
    }
}

/// `params` with a space behind each.
pub open spec fn params_doc(params: Seq<GenericTy>, n: nat) -> DocTree
    decreases n,
{
    if n == 0 || n > params.len() {
        DocTree::Nil
    } else {
        params_doc(params, (n - 1) as nat).then_doc(
            DocTree::Text(params[n - 1].id).then_doc(DocTree::Space),
        )
    }
}

/// `ids` with dots between them.
pub open spec fn path_doc(ids: Seq<Seq<char>>, n: nat) -> DocTree
    decreases n,
{
    if n == 0 || n > ids.len() {
        DocTree::Nil
    } else if n == 1 {
        DocTree::Nil.then_text(ids[0])
    } else {
        path_doc(ids, (n - 1) as nat).then_text("."@).then_text(ids[n - 1])
    }
}

/// The fields of the first part of the row `t` that has fields.
pub open spec fn first_fields(t: Ty) -> Seq<FieldTy>
    decreases t,
{
    match t {
        Ty::ExtendRow(fields, _) => fields,
        Ty::ExtendTypeRow(_, rest) => first_fields(*rest),
        _ => Seq::empty(),
    }
}

pub open spec fn any_printed(printer: &Printer, fields: Seq<FieldTy>) -> bool {
    exists|i: int|
        0 <= i < fields.len() && printer.filter_of((#[trigger] fields[i]).name) != Filter::Drop
}

pub open spec fn comma(yes: bool) -> DocTree {
    if yes {
        DocTree::Text(","@)
    } else {
        DocTree::Nil
    }
}

/// How `t` is printed where it stands in `prec`.
pub open spec fn type_doc(printer: &Printer, a: Marked, prec: Prec, t: Ty) -> DocTree
    decreases t, 3nat,
{
    let doc = match t {
        Ty::Hole => DocTree::Text("_"@),
        Ty::Error => DocTree::Text("!"@),
        Ty::Opaque => DocTree::Text("<opaque>"@),
        Ty::Forall(params, inner) => enclosed(
            prec.needs_parens(Prec::Function),
            DocTree::Text("forall "@).then_doc(params_doc(params, params.len())).then_text(
                "."@,
            ).group().then_doc(DocTree::Space).then_doc(type_doc(printer, part(a, 0), Prec::Top, *inner)),
        ),
        Ty::Variable(var) => DocTree::Text(decimal(var.id as nat)),
        Ty::Skolem(skolem) => DocTree::Text(skolem.name).then_text("@"@).then_text(
            decimal(skolem.id as nat),
        ),
        Ty::Generic(gen) => DocTree::Text(gen.id),
        Ty::Function(..) => function_doc(printer, a, prec, t).nest(),
        Ty::App(f, args) => if function_parts(t) is Some {
            function_doc(printer, a, prec, t).nest()
        } else {
            enclosed(
                prec.needs_parens(Prec::Constructor),
                type_doc(printer, part(a, 0), Prec::Top, *f).then_doc(
                    args_doc(printer, a, args, args.len()).nest(),
                ),
            ).group()
        },
        Ty::Variant(row) => enclosed(
            prec.needs_parens(Prec::Constructor),
            variant_doc(printer, part(a, 0), *row, DocTree::Nil, true),
        ).group(),
        Ty::Effect(row) => record_doc(printer, part(a, 0), *row, Brackets::Effect),
        Ty::Builtin(b) => match b {
            BuiltinType::Function => DocTree::Text("("@).then_text(b.text()).then_text(")"@),
            _ => DocTree::Text(b.text()),
        },
        Ty::Record(row) => record_doc(
            printer,
            part(a, 0),
            *row,
            if is_tuple_ty(t) {
                Brackets::Tuple
            } else {
                Brackets::Record
            },
        ),
        Ty::ExtendRow(..) | Ty::ExtendTypeRow(..) => row_doc(printer, a, t, Brackets::Record),
        Ty::EmptyRow => DocTree::Text("EmptyRow"@),
        Ty::Ident(id) => DocTree::Text(last_part(id)),
        Ty::Projection(ids) => path_doc(ids, ids.len()),
        Ty::Alias(alias) => DocTree::Text(alias.data().name),
    };
    if begins_with_part(t) {
        doc
    } else {
        before_doc(a).then_doc(doc)
    }
}

/// The arguments of an application, with a space before each.
pub open spec fn args_doc(printer: &Printer, a: Marked, args: Seq<Ty>, n: nat) -> DocTree
    decreases args, n,
{
    if n == 0 || n > args.len() {
        DocTree::Nil
    } else {
        args_doc(printer, a, args, (n - 1) as nat).then_doc(
            DocTree::Space.then_doc(
                type_doc(printer, part(a, n as int), Prec::Constructor, args[n - 1]),
            ),
        )
    }
}

/// How the function `t` is printed.
pub open spec fn function_doc(printer: &Printer, a: Marked, prec: Prec, t: Ty) -> DocTree
    decreases t, 2nat,
{
    enclosed(prec.needs_parens(Prec::Function), arrows_doc(printer, a, t)).group()
}

pub open spec fn bracket(arg_type: ArgType, text: Seq<char>) -> Seq<char> {
    if arg_type == ArgType::Implicit {
        text
    } else {
        ""@
    }
}

/// The function `t`, one argument behind the other. At the end stands a type that is no function.
pub open spec fn arrows_doc(printer: &Printer, a: Marked, t: Ty) -> DocTree
    decreases t, 1nat,
{
    match t {
        Ty::Function(arg_type, arg, ret) => DocTree::Text(bracket(arg_type, "["@)).then_doc(
            type_doc(printer, part(a, 0), Prec::Function, *arg),
        ).then_text(bracket(arg_type, "]"@)).then_doc(after_doc(part(a, 0))).then_text("-> "@).then_doc(
            result_doc(printer, part(a, 1), *ret),
        ),
        Ty::App(f, args) => if args.len() == 2 && function_parts(t) is Some {
            DocTree::Text(""@).then_doc(type_doc(printer, part(a, 1), Prec::Function, args[0])).then_text(
                ""@,
            ).then_doc(after_doc(part(a, 1))).then_text("-> "@).then_doc(result_doc(printer, part(a, 2), args[1]))
        } else if args.len() == 1 && function_parts(t) is Some && (*f)->App_1.len() > 0 {
            DocTree::Text(""@).then_doc(
                type_doc(printer, part(part(a, 0), 1), Prec::Function, (*f)->App_1[0]),
            ).then_text(""@).then_doc(after_doc(part(part(a, 0), 1))).then_text("-> "@).then_doc(
                result_doc(printer, part(a, 1), args[0]),
            )
        } else {
            DocTree::Nil
        },
        _ => DocTree::Nil,
    }
}

/// The result `t` of a function.
pub open spec fn result_doc(printer: &Printer, a: Marked, t: Ty) -> DocTree
    decreases t, 4nat,
{
    if function_parts(t) is Some {
        arrows_doc(printer, a, t)
    } else {
        type_doc(printer, a, Prec::Top, t)
    }
}

/// The constructors in the row `t`, behind those in `doc`.
pub open spec fn variant_doc(
    printer: &Printer,
    a: Marked,
    t: Ty,
    doc: DocTree,
    first: bool,
) -> DocTree
    decreases t, 4nat,
{
    match t {
        Ty::EmptyRow => doc,
        Ty::ExtendRow(fields, rest) => variant_doc(
            printer,
            part(a, fields.len() as int),
            *rest,
            doc.then_doc(constructors_doc(printer, a, fields, fields.len(), first)),
            first && fields.len() == 0,
        ),
        _ => doc.then_doc(DocTree::Newline).then_text(".. "@).then_doc(
            type_doc(printer, a, Prec::Top, t),
        ),
    }
}

/// The first `n` of the constructors `fields`.
pub open spec fn constructors_doc(
    printer: &Printer, a: Marked,
    fields: Seq<FieldTy>,
    n: nat,
    first: bool,
) -> DocTree
    decreases fields, n,
{
    if n == 0 || n > fields.len() {
        DocTree::Nil
    } else {
        let start = if first && n == 1 {
            DocTree::Nil
        } else {
            DocTree::Newline
        };
        constructors_doc(printer, a, fields, (n - 1) as nat, first).then_doc(
            start.then_text("| "@).then_text(fields[n - 1].name).then_doc(
                constructor_args_doc(printer, part(a, n - 1), fields[n - 1].typ),
            ).group(),
        )
    }
}

/// The arguments of a constructor of type `t`.
pub open spec fn constructor_args_doc(printer: &Printer, a: Marked, t: Ty) -> DocTree
    decreases t, 4nat,
{
    match t {
        Ty::Forall(_, inner) => constructor_args_doc(printer, part(a, 0), *inner),
        _ => if function_parts(t) is Some {
            function_args_doc(printer, a, t, DocTree::Nil)
        } else {
            row_types_doc(printer, a, t, DocTree::Nil)
        },
    }
}

pub open spec fn constructor_arg(doc: DocTree, arg: DocTree) -> DocTree {
    doc.then_doc(DocTree::Text(" "@).then_doc(arg))
}

/// The arguments of the function `t` behind `doc`.
pub open spec fn function_args_doc(printer: &Printer, a: Marked, t: Ty, doc: DocTree) -> DocTree
    decreases t, 3nat,
{
    match t {
        Ty::Function(_, arg, ret) => function_args_doc(
            printer,
            part(a, 1),
            *ret,
            constructor_arg(doc, type_doc(printer, part(a, 0), Prec::Constructor, *arg)),
        ),
        Ty::App(f, args) => if args.len() == 2 && function_parts(t) is Some {
            function_args_doc(
                printer,
                part(a, 2),
                args[1],
                constructor_arg(doc, type_doc(printer, part(a, 1), Prec::Constructor, args[0])),
            )
        } else if args.len() == 1 && function_parts(t) is Some && (*f)->App_1.len() > 0 {
            function_args_doc(
                printer,
                part(a, 1),
                args[0],
                constructor_arg(
                    doc,
                    type_doc(printer, part(part(a, 0), 1), Prec::Constructor, (*f)->App_1[0]),
                ),
            )
        } else {
            doc
        },
        _ => doc,
    }
}

/// The types of the fields of `t` behind `doc`.
pub open spec fn row_types_doc(printer: &Printer, a: Marked, t: Ty, doc: DocTree) -> DocTree
    decreases t, 3nat,
{
    match t {
        Ty::Record(row) => row_types_doc(printer, part(a, 0), *row, doc),
        Ty::Variant(row) => row_types_doc(printer, part(a, 0), *row, doc),
        Ty::ExtendRow(fields, rest) => row_types_doc(
            printer,
            part(a, fields.len() as int),
            *rest,
            field_types_doc(printer, a, fields, fields.len(), doc),
        ),
        Ty::ExtendTypeRow(types, rest) => row_types_doc(
            printer,
            part(a, types.len() as int),
            *rest,
            doc,
        ),
        _ => doc,
    }
}

pub open spec fn field_types_doc(
    printer: &Printer, a: Marked,
    fields: Seq<FieldTy>,
    n: nat,
    doc: DocTree,
) -> DocTree
    decreases fields, n,
{
    if n == 0 || n > fields.len() {
        doc
    } else {
        constructor_arg(
            field_types_doc(printer, a, fields, (n - 1) as nat, doc),
            type_doc(printer, part(a, n - 1), Prec::Constructor, fields[n - 1].typ),
        )
    }
}

/// The record, or the like, with the row `t`.
pub open spec fn record_doc(printer: &Printer, a: Marked, t: Ty, brackets: Brackets) -> DocTree
    decreases t, 5nat,
{
    let open = DocTree::Text(brackets.open());
    let doc = match t {
        Ty::EmptyRow => open,
        Ty::ExtendRow(..) | Ty::ExtendTypeRow(..) => open.then_doc(
            row_doc(printer, a, t, brackets),
        ).nest(),
        _ => open.then_doc(DocTree::Space).then_text("| "@).then_doc(
            type_doc(printer, a, Prec::Top, t),
        ).nest(),
    };
    let doc = if t is EmptyRow || brackets == Brackets::Tuple {
        doc
    } else {
        doc.then_doc(line(row_commented(a, t)))
    };
    doc.then_text(brackets.close()).group()
}

/// The row `t`.
pub open spec fn row_doc(printer: &Printer, a: Marked, t: Ty, brackets: Brackets) -> DocTree
    decreases t, 2nat,
{
    let style = RowStyle {
        brackets,
        types: type_fields(t).len(),
        fields: first_fields(t).len(),
        any_field: any_printed(printer, first_fields(t)),
        broken: first_commented(a, t),
    };
    let space = line(style.broken);
    let types = types_tree(
        printer,
        a,
        t,
        style,
        RowTree { doc: DocTree::Nil, filtered: false, index: 0 },
    );
    let fields = fields_tree(printer, a, t, style, RowTree { index: 0, ..types });
    let doc = if fields.filtered {
        if fields.doc is Nil {
            space.then_text("..."@)
        } else {
            space.then_text("...,"@).then_doc(fields.doc).then_doc(
                comma(!style.broken),
            ).then_doc(space).then_text("..."@)
        }
    } else {
        fields.doc
    };
    rest_doc(printer, a, t, doc)
}

/// What is left of the row `t` behind its fields, behind `doc`.
pub open spec fn rest_doc(printer: &Printer, a: Marked, t: Ty, doc: DocTree) -> DocTree
    decreases t, 1nat,
{
    match t {
        Ty::ExtendRow(fields, rest) => rest_of_doc(
            printer,
            part(a, fields.len() as int),
            *rest,
            doc,
        ),
        Ty::ExtendTypeRow(types, rest) => rest_of_doc(
            printer,
            part(a, types.len() as int),
            *rest,
            doc,
        ),
        _ => doc,
    }
}

/// What is left of `t` behind its fields, behind `doc`.
pub open spec fn rest_of_doc(printer: &Printer, a: Marked, t: Ty, doc: DocTree) -> DocTree
    decreases t, 4nat,
{
    match t {
        Ty::Record(row) => rest_of_doc(printer, part(a, 0), *row, doc),
        Ty::Variant(row) => rest_of_doc(printer, part(a, 0), *row, doc),
        Ty::ExtendRow(fields, rest) => rest_of_doc(
            printer,
            part(a, fields.len() as int),
            *rest,
            doc,
        ),
        Ty::ExtendTypeRow(types, rest) => rest_of_doc(
            printer,
            part(a, types.len() as int),
            *rest,
            doc,
        ),
        Ty::EmptyRow => doc,
        _ => doc.then_doc(DocTree::Space).then_text("| "@).then_doc(
            type_doc(printer, a, Prec::Top, t),
        ),
    }
}

/// The associated types of the row `t`, behind what is in `tree`.
pub open spec fn types_tree(
    printer: &Printer,
    a: Marked,
    t: Ty,
    style: RowStyle,
    tree: RowTree,
) -> RowTree
    decreases t, 1nat,
{
    match t {
        Ty::Record(row) => types_tree(printer, part(a, 0), *row, style, tree),
        Ty::ExtendRow(fields, rest) => types_tree(
            printer,
            part(a, fields.len() as int),
            *rest,
            style,
            tree,
        ),
        Ty::ExtendTypeRow(types, rest) => types_tree(
            printer,
            part(a, types.len() as int),
            *rest,
            style,
            some_types_tree(printer, a, types, types.len(), style, tree),
        ),
        _ => tree,
    }
}

/// The first `n` of the associated types `types`, behind what is in `tree`.
pub open spec fn some_types_tree(
    printer: &Printer, a: Marked,
    types: Seq<FieldTy>,
    n: nat,
    style: RowStyle,
    tree: RowTree,
) -> RowTree
    decreases types, n,
{
    if n == 0 || n > types.len() {
        tree
    } else {
        let before = some_types_tree(printer, a, types, (n - 1) as nat, style, tree);
        let field = types[n - 1];
        let index = before.index + 1;
        match printer.filter_of(field.name) {
            Filter::Drop => RowTree { doc: before.doc, filtered: true, index },
            filter => {
                let (params, typ) = match field.typ {
                    Ty::Alias(alias) => if 0 <= alias.index < alias.group.len() {
                        let data = alias.group[alias.index];
                        (
                            params_doc(data.params, data.params.len()),
                            if filter == Filter::RetainKey {
                                DocTree::Text("..."@)
                            } else {
                                type_doc(printer, part(a, n - 1), Prec::Top, data.typ)
                            },
                        )
                    } else {
                        (DocTree::Nil, DocTree::Nil)
                    },
                    _ => (DocTree::Nil, DocTree::Nil),
                };
                let f = DocTree::Text(field.name).then_doc(DocTree::Space).then_doc(
                    params,
                ).then_text("= "@).then_doc(typ).then_doc(
                    comma(index != style.types || style.any_field),
                ).group();
                RowTree {
                    doc: before.doc.then_doc(line(style.broken)).then_doc(f),
                    filtered: before.filtered,
                    index,
                }
            },
        }
    }
}

/// The fields of the row `t`, behind what is in `tree`.
pub open spec fn fields_tree(
    printer: &Printer,
    a: Marked,
    t: Ty,
    style: RowStyle,
    tree: RowTree,
) -> RowTree
    decreases t, 1nat,
{
    match t {
        Ty::Record(row) => fields_tree(printer, part(a, 0), *row, style, tree),
        Ty::Variant(row) => fields_tree(printer, part(a, 0), *row, style, tree),
        Ty::ExtendRow(fields, rest) => fields_tree(
            printer,
            part(a, fields.len() as int),
            *rest,
            style,
            some_fields_tree(printer, a, fields, fields.len(), style, tree),
        ),
        Ty::ExtendTypeRow(types, rest) => fields_tree(
            printer,
            part(a, types.len() as int),
            *rest,
            style,
            tree,
        ),
        _ => tree,
    }
}

/// The first `n` of `fields`, behind what is in `tree`.
pub open spec fn some_fields_tree(
    printer: &Printer, a: Marked,
    fields: Seq<FieldTy>,
    n: nat,
    style: RowStyle,
    tree: RowTree,
) -> RowTree
    decreases fields, n,
{
    if n == 0 || n > fields.len() {
        tree
    } else {
        let before = some_fields_tree(printer, a, fields, (n - 1) as nat, style, tree);
        let field = fields[n - 1];
        let index = before.index + 1;
        match printer.filter_of(field.name) {
            Filter::Drop => RowTree { doc: before.doc, filtered: true, index },
            filter => {
                let rhs = if filter == Filter::RetainKey {
                    DocTree::Text("..."@)
                } else {
                    type_doc(printer, part(a, n - 1), Prec::Top, field.typ)
                };
                // Records handle nesting on their own
                let rhs = if field.typ is Record {
                    rhs
                } else {
                    rhs.nest()
                };
                let f = style.brackets.field_start(comment_of(part(a, n - 1)), field.name).then_doc(rhs.group()).then_doc(
                    comma(index != style.fields),
                ).group();
                let space = if before.index == 0 && style.brackets == Brackets::Tuple {
                    DocTree::Nil
                } else {
                    line(style.broken)
                };
                RowTree {
                    doc: before.doc.then_doc(space).then_doc(f),
                    filtered: before.filtered,
                    index,
                }
            },
        }
    }
}

/// Each function in `t` has the type of its argument, and the rows of `t` can be counted.
pub open spec fn printable(t: Ty) -> bool
    decreases t,
{
    &&& !lacks_argument(t)
    &&& row_fields(t).len() <= usize::MAX
    &&& type_fields(t).len() <= usize::MAX
    &&& match t {
        Ty::Forall(_, inner) => printable(*inner),
        Ty::App(f, args) => printable(*f) && all_printable(args),
        Ty::Function(_, arg, ret) => printable(*arg) && printable(*ret),
        Ty::Record(row) => printable(*row),
        Ty::Variant(row) => printable(*row),
        Ty::Effect(row) => printable(*row),
        Ty::ExtendRow(fields, rest) => printable(*rest) && all_fields_printable(fields),
        Ty::ExtendTypeRow(types, rest) => printable(*rest) && all_types_printable(types),
        _ => true,
    }
}

pub open spec fn all_printable(types: Seq<Ty>) -> bool
    decreases types,
{
    forall|i: int| 0 <= i < types.len() ==> printable(#[trigger] types[i])
}

pub open spec fn all_fields_printable(fields: Seq<FieldTy>) -> bool
    decreases fields,
{
    forall|i: int| 0 <= i < fields.len() ==> printable((#[trigger] fields[i]).typ)
}

pub open spec fn all_types_printable(types: Seq<FieldTy>) -> bool
    decreases types,
{
    forall|i: int|
        0 <= i < types.len() ==> match (#[trigger] types[i]).typ {
            Ty::Alias(alias) => if 0 <= alias.index < alias.group.len() {
                printable(alias.group[alias.index].typ)
            } else {
                true
            },
            _ => true,
        }
}

/// The number of fields of `typ`, if it is one that can be counted.
fn try_count_fields(typ: &ArcType) -> (res: Option<usize>)
    ensures
        match res {
            Some(n) => row_fields(typ@).len() == n,
            None => row_fields(typ@).len() > usize::MAX,
        },
    decreases typ@,
{
    proof {
        parts_decrease(typ@);
    }
    match typ.as_type() {
        Type::Record(row) | Type::Variant(row) => try_count_fields(row),
        Type::ExtendRow { fields, rest } => match try_count_fields(rest) {
            Some(n) => {
                assert(fields_view(fields@).len() == fields@.len());
                fields.len().checked_add(n)
            },
            None => None,
        },
        Type::ExtendTypeRow { types: _, rest } => try_count_fields(rest),
        _ => Some(0),
    }
}

/// The number of types in the row `typ`, if it is one that can be counted.
fn try_count_types(typ: &ArcType) -> (res: Option<usize>)
    ensures
        match res {
            Some(n) => type_fields(typ@).len() == n,
            None => type_fields(typ@).len() > usize::MAX,
        },
    decreases typ@,
{
    proof {
        parts_decrease(typ@);
    }
    match typ.as_type() {
        Type::Record(row) => try_count_types(row),
        Type::ExtendRow { fields: _, rest } => try_count_types(rest),
        Type::ExtendTypeRow { types, rest } => match try_count_types(rest) {
            Some(n) => {
                assert(type_fields_view(types@).len() == types@.len());
                types.len().checked_add(n)
            },
            None => None,
        },
        _ => Some(0),
    }
}

fn does_lack_argument(typ: &ArcType) -> (res: bool)
    ensures
        res == lacks_argument(typ@),
{
    match typ.as_type() {
        Type::App(f, args) => {
            assert(types_view(args@).len() == args@.len());
            if args.len() != 1 {
                return false;
            }
            match f.as_type() {
                Type::App(inner, first) => {
                    assert(types_view(first@).len() == first@.len());
                    first.len() == 0 && match inner.as_type() {
                        Type::Builtin(BuiltinType::Function) => true,
                        _ => false,
                    }
                },
                _ => false,
            }
        },
        _ => false,
    }
}

/// Whether `typ` can be printed.
pub fn is_printable(typ: &ArcType) -> (res: bool)
    ensures
        res == printable(typ@),
    decreases typ@, 0nat,
{
    proof {
        parts_decrease(typ@);
    }
    if does_lack_argument(typ) || try_count_fields(typ).is_none() || try_count_types(typ).is_none() {
        return false;
    }
    match typ.as_type() {
        Type::Forall(_, x) | Type::Record(x) | Type::Variant(x) | Type::Effect(x) => {
            is_printable(x)
        },
        Type::App(f, args) => is_printable(f) && are_printable(args),
        Type::Function(_, arg, ret) => is_printable(arg) && is_printable(ret),
        Type::ExtendRow { fields, rest } => is_printable(rest) && are_fields_printable(fields),
        Type::ExtendTypeRow { types, rest } => is_printable(rest) && are_types_printable(types),
        _ => true,
    }
}

/// Whether all of `types` can be printed.
pub fn are_printable(types: &Vec<ArcType>) -> (res: bool)
    ensures
        res == all_printable(types_view(types@)),
    decreases types_view(types@), 1nat,
{
    let ghost all = types_view(types@);
    let mut i: usize = 0;
    while i < types.len()
        invariant
            i <= types@.len(),
            all == types_view(types@),
            forall|j: int| 0 <= j < i ==> printable(#[trigger] all[j]),
        decreases types@.len() - i,
    {
        assert(decreases_to!(all => all[i as int]));
        if !is_printable(&types[i]) {
            return false;
        }
        i += 1;
    }
    true
}

fn are_fields_printable(fields: &Vec<Field>) -> (res: bool)
    ensures
        res == all_fields_printable(fields_view(fields@)),
    decreases fields_view(fields@), 1nat,
{
    let ghost all = fields_view(fields@);
    let mut i: usize = 0;
    while i < fields.len()
        invariant
            i <= fields@.len(),
            all == fields_view(fields@),
            forall|j: int| 0 <= j < i ==> printable((#[trigger] all[j]).typ),
        decreases fields@.len() - i,
    {
        assert(decreases_to!(all => all[i as int]));
        assert(decreases_to!(all[i as int] => all[i as int].typ));
        if !is_printable(&fields[i].typ) {
            return false;
        }
        i += 1;
    }
    true
}

fn are_types_printable(types: &Vec<TypeField>) -> (res: bool)
    ensures
        res == all_types_printable(type_fields_view(types@)),
    decreases type_fields_view(types@), 1nat,
{
    let ghost all = type_fields_view(types@);
    let mut i: usize = 0;
    while i < types.len()
        invariant
            i <= types@.len(),
            all == type_fields_view(types@),
            all_types_printable(all.take(i as int)),
        decreases types@.len() - i,
    {
        assert(decreases_to!(all => all[i as int]));
        assert(decreases_to!(all[i as int] => all[i as int].typ));
        proof {
            parts_decrease(all[i as int].typ);
        }
        let data = types[i].typ.as_ref().data();
        if !is_printable(data.unresolved_type()) {
            assert(!all_types_printable(all)) by {
                assert(all[i as int].typ is Alias);
            }
            return false;
        }
        i += 1;
        assert forall|j: int| 0 <= j < i implies match (#[trigger] all.take(i as int)[j]).typ {
            Ty::Alias(alias) => if 0 <= alias.index < alias.group.len() {
                printable(alias.group[alias.index].typ)
            } else {
                true
            },
            _ => true,
        } by {
            if j < i - 1 {
                assert(all.take(i as int)[j] == all.take(i - 1)[j]);
            }
        }
    }
    assert(all.take(i as int) =~= all);
    true
}

/// A type that is printed where it stands in `prec`.
pub struct DisplayType<'a> {
    prec: Prec,
    typ: &'a ArcType,
    ast: Option<&'a AstType>,
}

/// What a reference to a type in source text refers to.
pub open spec fn marked(ast: Option<&AstType>) -> Marked {
    match ast {
        Some(ast) => Some(*ast),
        None => None,
    }
}

/// The part `i` of a type as it stands in source text.
fn part_of<'a>(ast: Option<&'a AstType>, i: usize) -> (res: Option<&'a AstType>)
    ensures
        marked(res) == part(marked(ast), i as int),
{
    match ast {
        Some(ast) => if i < ast.parts.len() {
            Some(&ast.parts[i])
        } else {
            None
        },
        None => None,
    }
}

/// The document for the comment of a type.
fn print_comment(ast: Option<&AstType>) -> (res: Document)
    ensures
        res@ == comment_doc(comment_of(marked(ast))),
{
    match ast {
        Some(ast) => doc_comment(&ast.comment),
        None => Document::Nil,
    }
}

/// The document for the comments before a type.
fn print_before(ast: Option<&AstType>) -> (res: Document)
    ensures
        res@ == before_doc(marked(ast)),
{
    match ast {
        Some(ast) => {
            let n: usize = ast.before.len();
            let (doc, any) = print_comments(&ast.before);
            if !any {
                return Document::Nil;
            }
            assert(texts(ast.before@).len() == n);
            if n == 0 {
                return doc.append(Document::Space);
            }
            let last = ast.before[n - 1].as_str();
            assert(texts(ast.before@).last() == last@);
            if last.is_empty() || starts_with(last, "//") {
                doc
            } else {
                doc.append(Document::Space)
            }
        },
        None => Document::Nil,
    }
}

/// The document for the comments behind a type.
fn print_after(ast: Option<&AstType>) -> (res: Document)
    ensures
        res@ == after_doc(marked(ast)),
{
    match ast {
        Some(ast) => {
            let (doc, any) = print_comments(&ast.after);
            if any {
                Document::Space.append(doc).append(Document::Space)
            } else {
                Document::Space
            }
        },
        None => Document::Space,
    }
}

fn is_commented(ast: Option<&AstType>) -> (res: bool)
    ensures
        res == (comment_of(marked(ast)) is Some),
{
    match ast {
        Some(ast) => ast.comment.is_some(),
        None => false,
    }
}

fn are_parts_commented(ast: Option<&AstType>, n: usize) -> (res: bool)
    ensures
        res == parts_commented(marked(ast), n as nat),
{
    let mut i: usize = 0;
    while i < n
        invariant
            i <= n,
            forall|j: int| 0 <= j < i ==> comment_of(#[trigger] part(marked(ast), j)) is None,
        decreases n - i,
    {
        if is_commented(part_of(ast, i)) {
            assert(comment_of(part(marked(ast), i as int)) is Some);
            return true;
        }
        i += 1;
    }
    false
}

fn is_row_commented(ast: Option<&AstType>, typ: &ArcType) -> (res: bool)
    ensures
        res == row_commented(marked(ast), typ@),
    decreases typ@,
{
    if ast.is_none() {
        proof {
            plain_rows(typ@);
        }
        return false;
    }
    proof {
        parts_decrease(typ@);
    }
    match typ.as_type() {
        Type::Record(row) | Type::Variant(row) => is_row_commented(part_of(ast, 0), row),
        Type::ExtendRow { fields, rest } => {
            assert(fields_view(fields@).len() == fields@.len());
            are_parts_commented(ast, fields.len()) || is_row_commented(
                part_of(ast, fields.len()),
                rest,
            )
        },
        Type::ExtendTypeRow { types, rest } => {
            assert(type_fields_view(types@).len() == types@.len());
            is_row_commented(part_of(ast, types.len()), rest)
        },
        _ => false,
    }
}

/// A type that does not come from source text has no comments.
proof fn plain_rows(t: Ty)
    ensures
        !row_commented(None, t),
    decreases t,
{
    parts_decrease(t);
    match t {
        Ty::Record(row) | Ty::Variant(row) => plain_rows(*row),
        Ty::ExtendRow(_, rest) => plain_rows(*rest),
        Ty::ExtendTypeRow(_, rest) => plain_rows(*rest),
        _ => {},
    }
}

fn is_first_commented(ast: Option<&AstType>, typ: &ArcType) -> (res: bool)
    ensures
        res == first_commented(marked(ast), typ@),
    decreases typ@,
{
    proof {
        parts_decrease(typ@);
    }
    match typ.as_type() {
        Type::ExtendRow { fields, rest: _ } => {
            assert(fields_view(fields@).len() == fields@.len());
            are_parts_commented(ast, fields.len())
        },
        Type::ExtendTypeRow { types, rest } => {
            assert(type_fields_view(types@).len() == types@.len());
            is_first_commented(part_of(ast, types.len()), rest)
        },
        _ => false,
    }
}

fn print_line(broken: bool) -> (res: Document)
    ensures
        res@ == line(broken),
{
    if broken {
        Document::Newline
    } else {
        Document::Space
    }
}

/// `typ` as it is printed where it stands in `prec`.
pub fn dt<'a>(prec: Prec, typ: &'a ArcType) -> (res: DisplayType<'a>)
    ensures
        res.prec() == prec,
        res.typ() == typ@,
        res.ast() is None,
{
    DisplayType { prec, typ, ast: None }
}

fn at<'a>(prec: Prec, typ: &'a ArcType, ast: Option<&'a AstType>) -> (res: DisplayType<'a>)
    ensures
        res.prec() == prec,
        res.typ() == typ@,
        res.ast() == marked(ast),
{
    DisplayType { prec, typ, ast }
}

fn print_params(params: &Vec<Generic>) -> (res: Document)
    ensures
        res@ == params_doc(generics_view(params@), params@.len()),
{
    let ghost all = generics_view(params@);
    let mut doc = Document::Nil;
    let mut i: usize = 0;
    while i < params.len()
        invariant
            i <= params@.len(),
            all == generics_view(params@),
            doc@ == params_doc(all, i as nat),
        decreases params@.len() - i,
    {
        assert(all[i as int].id == params@[i as int].id@);
        doc = doc.append(Document::text(params[i].id.as_str()).append(Document::Space));
        i += 1;
    }
    doc
}

fn print_path(ids: &Vec<Symbol>) -> (res: Document)
    ensures
        res@ == path_doc(symbols_view(ids@), ids@.len()),
{
    let ghost all = symbols_view(ids@);
    let mut doc = Document::Nil;
    let mut i: usize = 0;
    while i < ids.len()
        invariant
            i <= ids@.len(),
            all == symbols_view(ids@),
            doc@ == path_doc(all, i as nat),
        decreases ids@.len() - i,
    {
        assert(all[i as int] == ids@[i as int]@);
        if i > 0 {
            doc = doc.append_text(".");
        }
        doc = doc.append_text(ids[i].as_str());
        i += 1;
    }
    doc
}

fn print_comma(yes: bool) -> (res: Document)
    ensures
        res@ == comma(yes),
{
    if yes {
        Document::text(",")
    } else {
        Document::Nil
    }
}

/// The part of a row that is printed so far.
struct RowPrint {
    doc: Document,
    filtered: bool,
    index: usize,
}

impl View for RowPrint {
    type V = RowTree;

    closed spec fn view(&self) -> RowTree {
        RowTree { doc: self.doc@, filtered: self.filtered, index: self.index as nat }
    }
}

/// How a row is printed.
#[derive(Copy, Clone)]
struct RowLook {
    brackets: Brackets,
    types: usize,
    fields: usize,
    any_field: bool,
    broken: bool,
}

impl View for RowLook {
    type V = RowStyle;

    closed spec fn view(&self) -> RowStyle {
        RowStyle {
            brackets: self.brackets,
            types: self.types as nat,
            fields: self.fields as nat,
            any_field: self.any_field,
            broken: self.broken,
        }
    }
}

fn count_types(typ: &ArcType) -> (res: usize)
    requires
        type_fields(typ@).len() <= usize::MAX,
    ensures
        res == type_fields(typ@).len(),
    decreases typ@,
{
    proof {
        parts_decrease(typ@);
    }
    match typ.as_type() {
        Type::Record(row) => count_types(row),
        Type::ExtendRow { fields: _, rest } => count_types(rest),
        Type::ExtendTypeRow { types, rest } => {
            assert(type_fields_view(types@).len() == types@.len());
            let more: usize = count_types(rest);
            types.len() + more
        },
        _ => 0,
    }
}

/// How many fields the first part of the row has that has fields, and whether one is printed.
fn look_at_fields(printer: &Printer, typ: &ArcType) -> (res: (usize, bool))
    ensures
        res.0 == first_fields(typ@).len(),
        res.1 == any_printed(printer, first_fields(typ@)),
    decreases typ@,
{
    proof {
        parts_decrease(typ@);
    }
    match typ.as_type() {
        Type::ExtendRow { fields, rest: _ } => {
            let ghost all = fields_view(fields@);
            let mut any = false;
            let mut i: usize = 0;
            while i < fields.len()
                invariant
                    i <= fields@.len(),
                    all == fields_view(fields@),
                    any == (exists|j: int|
                        0 <= j < i && printer.filter_of((#[trigger] all[j]).name) != Filter::Drop),
                decreases fields@.len() - i,
            {
                assert(all[i as int].name == fields@[i as int].name@);
                if printer.filter(&fields[i].name) != Filter::Drop {
                    any = true;
                }
                i += 1;
            }
            (fields.len(), any)
        },
        Type::ExtendTypeRow { types: _, rest } => look_at_fields(printer, rest),
        _ => (0, false),
    }
}

impl<'a> DisplayType<'a> {
    pub closed spec fn prec(&self) -> Prec {
        self.prec
    }

    pub closed spec fn typ(&self) -> Ty {
        self.typ@
    }

    /// The type as it stands in source text.
    pub closed spec fn ast(&self) -> Marked {
        marked(self.ast)
    }

    /// How the type is printed.
    pub fn pretty(&self, printer: &Printer) -> (res: Document)
        requires
            printable(self.typ()),
        ensures
            res@ == type_doc(printer, self.ast(), self.prec(), self.typ()),
        decreases self.typ(), 3nat,
    {
        let p = self.prec;
        let typ = self.typ;
        let ast = self.ast;
        proof {
            parts_decrease(typ@);
        }
        let doc = match typ.as_type() {
            Type::Hole => Document::text("_"),
            Type::Error => Document::text("!"),
            Type::Opaque => Document::text("<opaque>"),
            Type::Forall(args, inner) => {
                assert(generics_view(args@).len() == args@.len());
                let start = Document::text("forall ").append(print_params(args)).append_text(
                    ".",
                ).group();
                let doc = start.append(Document::Space).append(at(Prec::Top, inner, part_of(ast, 0)).pretty(printer));
                p.enclose(Prec::Function, doc)
            },
            Type::Variable(var) => Document::text(decimal_string(var.id as u64).as_str()),
            Type::Skolem(skolem) => Document::text(skolem.name.as_str()).append_text(
                "@",
            ).append_text(decimal_string(skolem.id as u64).as_str()),
            Type::Generic(gen) => Document::text(gen.id.as_str()),
            Type::Function(..) => self.pretty_function(printer).nest(),
            Type::App(t, args) => match typ.as_function() {
                Some(_) => self.pretty_function(printer).nest(),
                None => {
                    let doc = at(Prec::Top, t, part_of(ast, 0)).pretty(printer);
                    let arg_doc = print_args(printer, ast, args);
                    assert(types_view(args@).len() == args@.len());
                    p.enclose(Prec::Constructor, doc.append(arg_doc.nest())).group()
                },
            },
            Type::Variant(row) => {
                let doc = print_variant(printer, part_of(ast, 0), row, Document::Nil, true);
                p.enclose(Prec::Constructor, doc).group()
            },
            Type::Effect(row) => print_record(printer, part_of(ast, 0), row, Brackets::Effect),
            Type::Builtin(t) => match *t {
                BuiltinType::Function => Document::text("(").append_text(t.to_str()).append_text(
                    ")",
                ),
                _ => Document::text(t.to_str()),
            },
            Type::Record(row) => {
                let brackets = if typ.is_tuple() {
                    Brackets::Tuple
                } else {
                    Brackets::Record
                };
                print_record(printer, part_of(ast, 0), row, brackets)
            },
            Type::ExtendRow { .. } => print_row(printer, ast, typ, Brackets::Record),
            Type::ExtendTypeRow { .. } => print_row(printer, ast, typ, Brackets::Record),
            Type::EmptyRow => Document::text("EmptyRow"),
            Type::Ident(id) => Document::text(id.declared_name()),
            Type::Projection(ids) => {
                assert(symbols_view(ids@).len() == ids@.len());
                print_path(ids)
            },
            Type::Alias(alias) => Document::text(alias.data().name().as_str()),
        };
        match typ.as_type() {
            Type::App(..) | Type::Variant(..) | Type::Function(..) => doc,
            Type::ExtendRow { .. } | Type::ExtendTypeRow { .. } => doc,
            _ => print_before(ast).append(doc),
        }
    }

    fn pretty_function(&self, printer: &Printer) -> (res: Document)
        requires
            printable(self.typ()),
            function_parts(self.typ()) is Some,
        ensures
            res@ == function_doc(printer, self.ast(), self.prec(), self.typ()),
        decreases self.typ(), 2nat,
    {
        let doc = print_arrows(printer, self.ast, self.typ);
        self.prec.enclose(Prec::Function, doc).group()
    }
}

fn print_arrows(printer: &Printer, ast: Option<&AstType>, typ: &ArcType) -> (res: Document)
    requires
        printable(typ@),
        function_parts(typ@) is Some,
    ensures
        res@ == arrows_doc(printer, marked(ast), typ@),
    decreases typ@, 1nat,
{
    proof {
        parts_decrease(typ@);
        function_parts_decrease(typ@);
        function_parts_printable(typ@);
    }
    match typ.as_function_with_type() {
        Some((arg_type, arg, ret)) => {
            let (open, close) = if arg_type == ArgType::Implicit {
                ("[", "]")
            } else {
                ("", "")
            };
            let (arg_ast, ret_ast) = function_parts_of(ast, typ);
            let start = Document::text(open).append(
                at(Prec::Function, arg, arg_ast).pretty(printer),
            );
            let start = start.append_text(close).append(print_after(arg_ast)).append_text("-> ");
            start.append(print_result(printer, ret_ast, ret))
        },
        None => Document::Nil,
    }
}

/// The argument and the result of a function as they stand in source text.
pub open spec fn marked_function(a: Marked, t: Ty) -> (Marked, Marked) {
    match t {
        Ty::App(_, args) => if args.len() == 2 {
            (part(a, 1), part(a, 2))
        } else {
            (part(part(a, 0), 1), part(a, 1))
        },
        _ => (part(a, 0), part(a, 1)),
    }
}

fn function_parts_of<'a>(ast: Option<&'a AstType>, typ: &ArcType) -> (res: (
    Option<&'a AstType>,
    Option<&'a AstType>,
))
    ensures
        (marked(res.0), marked(res.1)) == marked_function(marked(ast), typ@),
{
    match typ.as_type() {
        Type::App(_, args) => {
            assert(types_view(args@).len() == args@.len());
            if args.len() == 2 {
                (part_of(ast, 1), part_of(ast, 2))
            } else {
                (part_of(part_of(ast, 0), 1), part_of(ast, 1))
            }
        },
        _ => (part_of(ast, 0), part_of(ast, 1)),
    }
}

proof fn function_parts_printable(t: Ty)
    requires
        printable(t),
        function_parts(t) is Some,
    ensures
        printable((function_parts(t)->0).1),
        printable((function_parts(t)->0).2),
{
    match t {
        Ty::App(f, args) => {
            assert(all_printable(args));
            assert(printable(args[0]));
            if args.len() == 2 {
                assert(printable(args[1]));
            } else {
                assert(printable(*f));
                assert(all_printable((*f)->App_1));
                assert(printable((*f)->App_1[0]));
            }
        },
        _ => {},
    }
}

fn print_result(printer: &Printer, ast: Option<&AstType>, typ: &ArcType) -> (res: Document)
    requires
        printable(typ@),
    ensures
        res@ == result_doc(printer, marked(ast), typ@),
    decreases typ@, 4nat,
{
    if typ.as_function().is_some() {
        print_arrows(printer, ast, typ)
    } else {
        at(Prec::Top, typ, ast).pretty(printer)
    }
}

fn print_args(printer: &Printer, ast: Option<&AstType>, args: &Vec<ArcType>) -> (res: Document)
    requires
        all_printable(types_view(args@)),
    ensures
        res@ == args_doc(printer, marked(ast), types_view(args@), args@.len()),
    decreases types_view(args@), args@.len(),
{
    let ghost all = types_view(args@);
    let mut doc = Document::Nil;
    let mut i: usize = 0;
    while i < args.len()
        invariant
            i <= args@.len(),
            all == types_view(args@),
            all_printable(all),
            doc@ == args_doc(printer, marked(ast), all, i as nat),
        decreases args@.len() - i,
    {
        assert(all[i as int] == args@[i as int]@);
        assert(decreases_to!(all => all[i as int]));
        let arg = at(Prec::Constructor, &args[i], part_of(ast, i + 1)).pretty(printer);
        doc = doc.append(Document::Space.append(arg));
        i += 1;
    }
    doc
}

fn print_variant(
    printer: &Printer,
    ast: Option<&AstType>,
    row: &ArcType,
    doc: Document,
    first: bool,
) -> (res: Document)
    requires
        printable(row@),
    ensures
        res@ == variant_doc(printer, marked(ast), row@, doc@, first),
    decreases row@, 4nat,
{
    proof {
        parts_decrease(row@);
    }
    match row.as_type() {
        Type::EmptyRow => doc,
        Type::ExtendRow { fields, rest } => {
            assert(fields_view(fields@).len() == fields@.len());
            let doc = doc.append(print_constructors(printer, ast, fields, first));
            print_variant(printer, part_of(ast, fields.len()), rest, doc, first && fields.len() == 0)
        },
        _ => doc.append(Document::Newline).append_text(".. ").append(
            at(Prec::Top, row, ast).pretty(printer),
        ),
    }
}

fn print_constructors(
    printer: &Printer,
    ast: Option<&AstType>,
    fields: &Vec<Field>,
    first: bool,
) -> (res: Document)
    requires
        all_fields_printable(fields_view(fields@)),
    ensures
        res@ == constructors_doc(printer, marked(ast), fields_view(fields@), fields@.len(), first),
    decreases fields_view(fields@), fields@.len(),
{
    let ghost all = fields_view(fields@);
    let mut doc = Document::Nil;
    let mut i: usize = 0;
    while i < fields.len()
        invariant
            i <= fields@.len(),
            all == fields_view(fields@),
            all_fields_printable(all),
            doc@ == constructors_doc(printer, marked(ast), all, i as nat, first),
        decreases fields@.len() - i,
    {
        assert(all[i as int].typ == fields@[i as int].typ@);
        assert(all[i as int].name == fields@[i as int].name@);
        assert(decreases_to!(all => all[i as int]));
        let start = if first && i == 0 {
            Document::Nil
        } else {
            Document::Newline
        };
        let ctor = start.append_text("| ").append_text(fields[i].name.as_str()).append(
            print_constructor_args(printer, part_of(ast, i), &fields[i].typ),
        );
        doc = doc.append(ctor.group());
        i += 1;
    }
    doc
}

fn print_constructor_args(
    printer: &Printer,
    ast: Option<&AstType>,
    typ: &ArcType,
) -> (res: Document)
    requires
        printable(typ@),
    ensures
        res@ == constructor_args_doc(printer, marked(ast), typ@),
    decreases typ@, 4nat,
{
    proof {
        parts_decrease(typ@);
    }
    match typ.as_type() {
        Type::Forall(_, inner) => print_constructor_args(printer, part_of(ast, 0), inner),
        _ => {
            if typ.as_function().is_some() {
                print_function_args(printer, ast, typ, Document::Nil)
            } else {
                print_row_types(printer, ast, typ, Document::Nil)
            }
        },
    }
}

fn print_function_args(
    printer: &Printer,
    ast: Option<&AstType>,
    typ: &ArcType,
    doc: Document,
) -> (res: Document)
    requires
        printable(typ@),
    ensures
        res@ == function_args_doc(printer, marked(ast), typ@, doc@),
    decreases typ@, 3nat,
{
    proof {
        parts_decrease(typ@);
        if function_parts(typ@) is Some {
            function_parts_decrease(typ@);
            function_parts_printable(typ@);
        }
    }
    match typ.as_function() {
        Some((arg, ret)) => {
            let (arg_ast, ret_ast) = function_parts_of(ast, typ);
            let arg = at(Prec::Constructor, arg, arg_ast).pretty(printer);
            let doc = doc.append(Document::text(" ").append(arg));
            print_function_args(printer, ret_ast, ret, doc)
        },
        None => doc,
    }
}

fn print_row_types(
    printer: &Printer,
    ast: Option<&AstType>,
    typ: &ArcType,
    doc: Document,
) -> (res: Document)
    requires
        printable(typ@),
    ensures
        res@ == row_types_doc(printer, marked(ast), typ@, doc@),
    decreases typ@, 3nat,
{
    proof {
        parts_decrease(typ@);
    }
    match typ.as_type() {
        Type::Record(row) => print_row_types(printer, part_of(ast, 0), row, doc),
        Type::Variant(row) => print_row_types(printer, part_of(ast, 0), row, doc),
        Type::ExtendRow { fields, rest } => {
            let ghost all = fields_view(fields@);
            let ghost start = doc@;
            let mut doc = doc;
            let mut i: usize = 0;
            while i < fields.len()
                invariant
                    i <= fields@.len(),
                    all == fields_view(fields@),
                    decreases_to!(typ@ => all),
                    all_fields_printable(all),
                    doc@ == field_types_doc(printer, marked(ast), all, i as nat, start),
                decreases fields@.len() - i,
            {
                assert(all[i as int].typ == fields@[i as int].typ@);
                assert(decreases_to!(all => all[i as int]));
                let arg = at(Prec::Constructor, &fields[i].typ, part_of(ast, i)).pretty(printer);
                doc = doc.append(Document::text(" ").append(arg));
                i += 1;
            }
            print_row_types(printer, part_of(ast, fields.len()), rest, doc)
        },
        Type::ExtendTypeRow { types, rest } => {
            assert(type_fields_view(types@).len() == types@.len());
            print_row_types(printer, part_of(ast, types.len()), rest, doc)
        },
        _ => doc,
    }
}

fn print_record(
    printer: &Printer,
    ast: Option<&AstType>,
    row: &ArcType,
    brackets: Brackets,
) -> (res: Document)
    requires
        printable(row@),
    ensures
        res@ == record_doc(printer, marked(ast), row@, brackets),
    decreases row@, 5nat,
{
    let (open, close) = match brackets {
        Brackets::Record => ("{", "}"),
        Brackets::Tuple => ("(", ")"),
        Brackets::Effect => ("[|", "|]"),
    };
    let doc = Document::text(open);
    let (doc, empty) = match row.as_type() {
        Type::EmptyRow => (doc, true),
        Type::ExtendRow { .. } => (
            doc.append(print_row(printer, ast, row, brackets)).nest(),
            false,
        ),
        Type::ExtendTypeRow { .. } => (
            doc.append(print_row(printer, ast, row, brackets)).nest(),
            false,
        ),
        _ => (
            doc.append(Document::Space).append_text("| ").append(
                at(Prec::Top, row, ast).pretty(printer),
            ).nest(),
            false,
        ),
    };
    let doc = if empty || brackets == Brackets::Tuple {
        doc
    } else {
        doc.append(print_line(is_row_commented(ast, row)))
    };
    doc.append_text(close).group()
}

fn print_row(
    printer: &Printer,
    ast: Option<&AstType>,
    typ: &ArcType,
    brackets: Brackets,
) -> (res: Document)
    requires
        printable(typ@),
    ensures
        res@ == row_doc(printer, marked(ast), typ@, brackets),
    decreases typ@, 2nat,
{
    let (fields, any_field) = look_at_fields(printer, typ);
    let broken = is_first_commented(ast, typ);
    let look = RowLook { brackets, types: count_types(typ), fields, any_field, broken };
    let types = print_types(
        printer,
        ast,
        typ,
        look,
        RowPrint { doc: Document::Nil, filtered: false, index: 0 },
    );
    let RowPrint { doc, filtered, index } = types;
    let fields = print_fields(printer, ast, typ, look, RowPrint { doc, filtered, index: 0 });
    let RowPrint { doc, filtered, index } = fields;
    let doc = if filtered {
        if doc.is_nil() {
            print_line(broken).append_text("...")
        } else {
            print_line(broken).append_text("...,").append(doc).append(
                print_comma(!broken),
            ).append(print_line(broken)).append_text("...")
        }
    } else {
        doc
    };
    proof {
        parts_decrease(typ@);
    }
    match typ.as_type() {
        Type::ExtendRow { fields, rest } => {
            assert(fields_view(fields@).len() == fields@.len());
            print_rest(printer, part_of(ast, fields.len()), rest, doc)
        },
        Type::ExtendTypeRow { types, rest } => {
            assert(type_fields_view(types@).len() == types@.len());
            print_rest(printer, part_of(ast, types.len()), rest, doc)
        },
        _ => doc,
    }
}

fn print_rest(
    printer: &Printer,
    ast: Option<&AstType>,
    typ: &ArcType,
    doc: Document,
) -> (res: Document)
    requires
        printable(typ@),
    ensures
        res@ == rest_of_doc(printer, marked(ast), typ@, doc@),
    decreases typ@, 4nat,
{
    proof {
        parts_decrease(typ@);
    }
    match typ.as_type() {
        Type::Record(row) => print_rest(printer, part_of(ast, 0), row, doc),
        Type::Variant(row) => print_rest(printer, part_of(ast, 0), row, doc),
        Type::ExtendRow { fields, rest } => {
            assert(fields_view(fields@).len() == fields@.len());
            print_rest(printer, part_of(ast, fields.len()), rest, doc)
        },
        Type::ExtendTypeRow { types, rest } => {
            assert(type_fields_view(types@).len() == types@.len());
            print_rest(printer, part_of(ast, types.len()), rest, doc)
        },
        Type::EmptyRow => doc,
        _ => doc.append(Document::Space).append_text("| ").append(
            at(Prec::Top, typ, ast).pretty(printer),
        ),
    }
}

fn print_types(
    printer: &Printer,
    ast: Option<&AstType>,
    typ: &ArcType,
    look: RowLook,
    tree: RowPrint,
) -> (res: RowPrint)
    requires
        printable(typ@),
        tree@.index + type_fields(typ@).len() <= usize::MAX,
    ensures
        res@ == types_tree(printer, marked(ast), typ@, look@, tree@),
    decreases typ@, 1nat,
{
    proof {
        parts_decrease(typ@);
    }
    match typ.as_type() {
        Type::Record(row) => print_types(printer, part_of(ast, 0), row, look, tree),
        Type::ExtendRow { fields, rest } => {
            assert(fields_view(fields@).len() == fields@.len());
            print_types(printer, part_of(ast, fields.len()), rest, look, tree)
        },
        Type::ExtendTypeRow { types, rest } => {
            let ghost all = type_fields_view(types@);
            let ghost start = tree@;
            let mut tree = tree;
            let mut i: usize = 0;
            while i < types.len()
                invariant
                    i <= types@.len(),
                    all == type_fields_view(types@),
                    decreases_to!(typ@ => all),
                    all_types_printable(all),
                    tree@ == some_types_tree(printer, marked(ast), all, i as nat, look@, start),
                    tree@.index == start.index + i,
                    start.index + types@.len() <= usize::MAX,
                decreases types@.len() - i,
            {
                assert(all[i as int].name == types@[i as int].name@);
                assert(all[i as int].typ == types@[i as int].typ@);
                assert(decreases_to!(all => all[i as int]));
                let RowPrint { doc, filtered, index } = tree;
                let index: usize = index + 1;
                let filter = printer.filter(&types[i].name);
                if filter == Filter::Drop {
                    tree = RowPrint { doc, filtered: true, index };
                } else {
                    let alias = types[i].typ.as_ref();
                    proof {
                        parts_decrease(all[i as int].typ);
                    }
                    let data = alias.data();
                    let data_params = data.params();
                    assert(generics_view(data_params@).len() == data_params@.len());
                    let params = print_params(data_params);
                    let typ_doc = if filter == Filter::RetainKey {
                        Document::text("...")
                    } else {
                        at(Prec::Top, data.unresolved_type(), part_of(ast, i)).pretty(printer)
                    };
                    let f = Document::text(types[i].name.as_str()).append(Document::Space).append(
                        params,
                    ).append_text("= ").append(typ_doc).append(
                        print_comma(index != look.types || look.any_field),
                    );
                    tree = RowPrint {
                        doc: doc.append(print_line(look.broken)).append(f.group()),
                        filtered,
                        index,
                    };
                }
                i += 1;
            }
            print_types(printer, part_of(ast, types.len()), rest, look, tree)
        },
        _ => tree,
    }
}

fn print_fields(
    printer: &Printer,
    ast: Option<&AstType>,
    typ: &ArcType,
    look: RowLook,
    tree: RowPrint,
) -> (res: RowPrint)
    requires
        printable(typ@),
        tree@.index + row_fields(typ@).len() <= usize::MAX,
    ensures
        res@ == fields_tree(printer, marked(ast), typ@, look@, tree@),
    decreases typ@, 1nat,
{
    proof {
        parts_decrease(typ@);
    }
    match typ.as_type() {
        Type::Record(row) => print_fields(printer, part_of(ast, 0), row, look, tree),
        Type::Variant(row) => print_fields(printer, part_of(ast, 0), row, look, tree),
        Type::ExtendTypeRow { types, rest } => {
            assert(type_fields_view(types@).len() == types@.len());
            print_fields(printer, part_of(ast, types.len()), rest, look, tree)
        },
        Type::ExtendRow { fields, rest } => {
            let ghost all = fields_view(fields@);
            let ghost start = tree@;
            let mut tree = tree;
            let mut i: usize = 0;
            while i < fields.len()
                invariant
                    i <= fields@.len(),
                    all == fields_view(fields@),
                    decreases_to!(typ@ => all),
                    all_fields_printable(all),
                    tree@ == some_fields_tree(printer, marked(ast), all, i as nat, look@, start),
                    tree@.index == start.index + i,
                    start.index + fields@.len() <= usize::MAX,
                decreases fields@.len() - i,
            {
                assert(all[i as int].name == fields@[i as int].name@);
                assert(all[i as int].typ == fields@[i as int].typ@);
                assert(decreases_to!(all => all[i as int]));
                let RowPrint { doc, filtered, index } = tree;
                let first = index == 0;
                let index: usize = index + 1;
                let field = &fields[i];
                let filter = printer.filter(&field.name);
                if filter == Filter::Drop {
                    tree = RowPrint { doc, filtered: true, index };
                } else {
                    let rhs = if filter == Filter::RetainKey {
                        Document::text("...")
                    } else {
                        at(Prec::Top, &field.typ, part_of(ast, i)).pretty(printer)
                    };
                    // Records handle nesting on their own
                    let rhs = match field.typ.as_type() {
                        Type::Record(_) => rhs,
                        _ => rhs.nest(),
                    };
                    let start_doc = match look.brackets {
                        Brackets::Tuple => Document::Nil,
                        _ => print_comment(part_of(ast, i)).append(
                            ident(field.name.as_str()),
                        ).append_text(" : "),
                    };
                    let f = start_doc.append(rhs.group()).append(print_comma(index != look.fields));
                    let space = if first && look.brackets == Brackets::Tuple {
                        Document::Nil
                    } else {
                        print_line(look.broken)
                    };
                    tree = RowPrint {
                        doc: doc.append(space).append(f.group()),
                        filtered,
                        index,
                    };
                }
                i += 1;
            }
            print_fields(printer, part_of(ast, fields.len()), rest, look, tree)
        },
        _ => tree,
    }
}

/// How `typ` is printed.
pub fn pretty_print(printer: &Printer, typ: &ArcType) -> (res: Document)
    requires
        printable(typ@),
    ensures
        res@ == type_doc(printer, None, Prec::Top, typ@),
{
    dt(Prec::Top, typ).pretty(printer)
}

/// How a type that stands in source text is printed, with the comments that document its fields.
pub fn pretty_print_ast(printer: &Printer, ast: &AstType, typ: &ArcType) -> (res: Document)
    requires
        printable(typ@),
    ensures
        res@ == type_doc(printer, Some(*ast), Prec::Top, typ@),
{
    at(Prec::Top, typ, Some(ast)).pretty(printer)
}

/// A type that is laid out in lines.
pub struct TypeFormatter<'a> {
    width: usize,
    typ: &'a ArcType,
    printer: Printer,
}

/// The text of `t` in lines of `width` characters.
pub open spec fn type_text(printer: &Printer, t: Ty, width: usize) -> Seq<char> {
    crate::doc::laid_out(type_doc(printer, None, Prec::Top, t).group(), width)
}

impl<'a> TypeFormatter<'a> {
    pub closed spec fn width_of(&self) -> usize {
        self.width
    }

    pub closed spec fn typ(&self) -> Ty {
        self.typ@
    }

    pub closed spec fn printer(&self) -> Printer {
        self.printer
    }

    /// `typ` in lines of 80 characters.
    pub fn new(typ: &'a ArcType) -> (res: TypeFormatter<'a>)
        ensures
            res.width_of() == 80,
            res.typ() == typ@,
            forall|name: Seq<char>| #[trigger] res.printer().filter_of(name) == Filter::Retain,
    {
        TypeFormatter { width: 80, typ, printer: Printer::new() }
    }

    /// In lines of `width` characters.
    pub fn width(self, width: usize) -> (res: TypeFormatter<'a>)
        ensures
            res.width_of() == width,
            res.typ() == self.typ(),
            res.printer() == self.printer(),
    {
        TypeFormatter { width, typ: self.typ, printer: self.printer }
    }

    /// With the fields that `printer` leaves.
    pub fn filter(self, printer: Printer) -> (res: TypeFormatter<'a>)
        ensures
            res.width_of() == self.width_of(),
            res.typ() == self.typ(),
            res.printer() == printer,
    {
        TypeFormatter { width: self.width, typ: self.typ, printer }
    }

    /// The text of the type.
    pub fn format(&self) -> (res: String)
        requires
            printable(self.typ()),
            self.width_of() <= isize::MAX,
        ensures
            res@ == type_text(&self.printer(), self.typ(), self.width_of()),
    {
        pretty_print(&self.printer, self.typ).group().pretty(self.width)
    }
}

/// `typ` in lines of 80 characters.
pub fn display_type<'a>(typ: &'a ArcType) -> (res: TypeFormatter<'a>)
    ensures
        res.width_of() == 80,
        res.typ() == typ@,
        forall|name: Seq<char>| #[trigger] res.printer().filter_of(name) == Filter::Retain,
{
    TypeFormatter::new(typ)
}

} // verus!
