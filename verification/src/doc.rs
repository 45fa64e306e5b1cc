//! Documents that are laid out to fit a width.

use vstd::prelude::*;
use crate::text::chars;

verus! {

/// How far a nested document is indented.
pub const INDENT: u8 = 4;

/// A document.
pub enum Document {
    /// Nothing
    Nil,
    /// One document behind another
    Append(Box<Document>, Box<Document>),
    /// A document that is laid out on a single line if it fits
    Group(Box<Document>),
    /// A document whose lines are indented by so many characters more
    Nest(u8, Box<Document>),
    /// A space, or a line break where the group around it does not fit on a line
    Space,
    /// A line break
    Newline,
    Text(String),
}

/// What a document is.
pub enum DocTree {
    Nil,
    Append(Box<DocTree>, Box<DocTree>),
    Group(Box<DocTree>),
    Nest(nat, Box<DocTree>),
    Space,
    Newline,
    Text(Seq<char>),
}

/// What `doc` is.
pub open spec fn doc_tree(doc: Document) -> DocTree
    decreases doc,
{
    match doc {
        Document::Nil => DocTree::Nil,
        Document::Append(l, r) => DocTree::Append(Box::new(doc_tree(*l)), Box::new(doc_tree(*r))),
        Document::Group(doc) => DocTree::Group(Box::new(doc_tree(*doc))),
        Document::Nest(by, doc) => DocTree::Nest(by as nat, Box::new(doc_tree(*doc))),
        Document::Space => DocTree::Space,
        Document::Newline => DocTree::Newline,
        Document::Text(text) => DocTree::Text(text@),
    }
}

impl View for Document {
    type V = DocTree;

    open spec fn view(&self) -> DocTree {
        doc_tree(*self)
    }
}

impl DocTree {
    /// `self` and behind it `other`. Nothing is left of an empty document.
    pub open spec fn then_doc(self, other: DocTree) -> DocTree {
        match (self, other) {
            (DocTree::Nil, _) => other,
            (_, DocTree::Nil) => self,
            _ => DocTree::Append(Box::new(self), Box::new(other)),
        }
    }

    /// `self` and behind it `text`.
    pub open spec fn then_text(self, text: Seq<char>) -> DocTree {
        self.then_doc(DocTree::Text(text))
    }

    pub open spec fn group(self) -> DocTree {
        DocTree::Group(Box::new(self))
    }

    /// `self`, indented as what is nested is.
    pub open spec fn nest(self) -> DocTree {
        DocTree::Nest(INDENT as nat, Box::new(self))
    }
}

/// `self` in parentheses if `yes`.
pub open spec fn enclosed(yes: bool, doc: DocTree) -> DocTree {
    if yes {
        DocTree::Text("("@).then_doc(doc).then_text(")"@)
    } else {
        doc
    }
}

/// The characters that operators are made of.
pub open spec fn operator_char(c: char) -> bool {
    c == '!' || c == '#' || c == '$' || c == '%' || c == '&' || c == '*' || c == '+' || c == '-'
        || c == '.' || c == '/' || c == '<' || c == '=' || c == '>' || c == '?' || c == '@' || c
        == '\\' || c == '^' || c == '|' || c == '~' || c == ':'
}

/// Whether operators are made of `c`.
pub fn is_operator_char(c: char) -> (res: bool)
    ensures
        res == operator_char(c),
{
    c == '!' || c == '#' || c == '$' || c == '%' || c == '&' || c == '*' || c == '+' || c == '-'
        || c == '.' || c == '/' || c == '<' || c == '=' || c == '>' || c == '?' || c == '@' || c
        == '\\' || c == '^' || c == '|' || c == '~' || c == ':'
}

/// The name of a value: an operator stands in parentheses.
pub open spec fn ident_doc(name: Seq<char>) -> DocTree {
    enclosed(name.len() > 0 && operator_char(name[0]), DocTree::Text(name))
}

/// The name of a value: an operator stands in parentheses.
pub fn ident(name: &str) -> (res: Document)
    ensures
        res@ == ident_doc(name@),
{
    let all = chars(name);
    Document::enclose(all.len() > 0 && is_operator_char(all[0]), Document::text(name))
}

/// The documents in `docs` one behind the other.
pub open spec fn concatenated(docs: Seq<DocTree>) -> DocTree
    decreases docs.len(),
{
    if docs.len() == 0 {
        DocTree::Nil
    } else {
        concatenated(docs.drop_last()).then_doc(docs.last())
    }
}

impl Document {
    pub fn text(text: &str) -> (res: Document)
        ensures
            res@ == DocTree::Text(text@),
    {
        Document::Text(text.to_owned())
    }

    /// `self` and behind it `other`.
    pub fn append(self, other: Document) -> (res: Document)
        ensures
            res@ == self@.then_doc(other@),
    {
        match (self, other) {
            (Document::Nil, other) => other,
            (this, Document::Nil) => this,
            (this, other) => Document::Append(Box::new(this), Box::new(other)),
        }
    }

    /// `self` and behind it `text`.
    pub fn append_text(self, text: &str) -> (res: Document)
        ensures
            res@ == self@.then_text(text@),
    {
        self.append(Document::text(text))
    }

    pub fn group(self) -> (res: Document)
        ensures
            res@ == self@.group(),
    {
        Document::Group(Box::new(self))
    }

    /// `self`, indented as what is nested is.
    pub fn nest(self) -> (res: Document)
        ensures
            res@ == self@.nest(),
    {
        Document::Nest(INDENT, Box::new(self))
    }

    /// `doc` in parentheses if `yes`.
    pub fn enclose(yes: bool, doc: Document) -> (res: Document)
        ensures
            res@ == enclosed(yes, doc@),
    {
        if yes {
            Document::text("(").append(doc).append_text(")")
        } else {
            doc
        }
    }

    /// Whether the document is empty.
    pub fn is_nil(&self) -> (res: bool)
        ensures
            res == (self@ is Nil),
    {
        match self {
            Document::Nil => true,
            _ => false,
        }
    }

    /// A copy of the document.
    pub fn copy(&self) -> (res: Document)
        ensures
            res@ == self@,
        decreases self,
    {
        match self {
            Document::Nil => Document::Nil,
            Document::Append(l, r) => Document::Append(Box::new(l.copy()), Box::new(r.copy())),
            Document::Group(doc) => Document::Group(Box::new(doc.copy())),
            Document::Nest(by, doc) => Document::Nest(*by, Box::new(doc.copy())),
            Document::Space => Document::Space,
            Document::Newline => Document::Newline,
            Document::Text(text) => Document::Text(text.clone()),
        }
    }

    /// The document laid out in lines of `width` characters, as far as it can be.
    pub fn pretty(&self, width: usize) -> (res: String)
        requires
            width <= isize::MAX,
        ensures
            res@ == laid_out(self@, width),
    {
        render(self, width)
    }
}

#[verifier::external_type_specification]
#[verifier::external_body]
#[verifier::reject_recursive_types(T)]
#[verifier::reject_recursive_types(A)]
pub struct ExDoc<'a, T, A>(pretty::Doc<'a, T, A>);

#[verifier::external_type_specification]
#[verifier::external_body]
#[verifier::reject_recursive_types(A)]
pub struct ExBoxDoc<'a, A>(pretty::BoxDoc<'a, A>);

/// The text that `doc` is laid out as in lines of `width` characters.
pub uninterp spec fn laid_out(doc: DocTree, width: usize) -> Seq<char>;

/// `doc` as a document of the `pretty` crate, one constructor for the other.
///
/// Trusted: nothing is claimed of the result.
#[verifier::external_body]
fn to_pretty<'a>(doc: &'a Document) -> pretty::Doc<'a, pretty::BoxDoc<'a, ()>, ()> {
    match doc {
        Document::Nil => pretty::Doc::nil(),
        Document::Append(l, r) => to_pretty(l).append(to_pretty(r)),
        Document::Group(doc) => to_pretty(doc).group(),
        Document::Nest(by, doc) => to_pretty(doc).nest(usize::from(*by)),
        Document::Space => pretty::Doc::space(),
        Document::Newline => pretty::Doc::newline(),
        Document::Text(text) => pretty::Doc::text(text.as_str()),
    }
}

/// Trusted: `pretty::Doc::pretty`, which lays a document out. What comes out is determined by the
/// document and the width. A level of nesting adds less than 256 to the indentation, so no document
/// that fits into memory is nested so deeply that the sum overflows, and the width is one that can be
/// counted down below zero.
#[verifier::external_body]
fn render(doc: &Document, width: usize) -> (res: String)
    requires
        width <= isize::MAX,
    ensures
        res@ == laid_out(doc@, width),
{
    to_pretty(doc).pretty(width).to_string()
}

} // verus!
