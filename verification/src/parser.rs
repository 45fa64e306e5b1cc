//! The grammar of the language.

use vstd::prelude::*;
use crate::lexer::{
    arrow_at, blank_end, char_at, float_at, ident_at, infix_at, integer_at, name_at,
    reserved_op_at, tried, word_at, Blank, Lexer, Read, Reading,
};
use crate::symbol::Symbol;
use crate::text::{is_lowercase, lowercase};

verus! {

/// Where an expression stands in the text.
#[derive(Copy, Clone, Eq, PartialEq, Structural, Debug)]
pub struct Location {
    pub column: i32,
    pub row: i32,
    pub absolute: i32,
}

/// The types that are built in.
#[derive(Copy, Clone, Eq, PartialEq, Structural, Debug)]
pub enum Primitive {
    Int,
    Float,
    String,
    Bool,
    Unit,
}

/// A type as it stands in the text.
pub enum ParsedType {
    Generic(Symbol),
    Builtin(Primitive),
    Data(Symbol),
    App(Box<ParsedType>, Box<ParsedType>),
    Function(Vec<ParsedType>, Box<ParsedType>),
    Record(Vec<ParsedField>),
    Array(Box<ParsedType>),
}

pub struct ParsedField {
    pub name: Symbol,
    pub typ: ParsedType,
}

/// An identifier, with the type that is given for it.
pub struct TcIdent {
    pub name: Symbol,
    pub typ: Option<ParsedType>,
}

pub enum LiteralStruct {
    Integer(i64),
    /// A floating point number, as it is written.
    Float(String),
    Bool(bool),
}

pub struct LambdaStruct {
    pub id: TcIdent,
    pub free_vars: Vec<TcIdent>,
    pub arguments: Vec<TcIdent>,
    pub body: Box<LExpr>,
}

/// An expression and where it stands.
pub struct LExpr {
    pub location: Location,
    pub value: Expr,
}

pub struct RecordField {
    pub name: Symbol,
    pub value: LExpr,
}

pub enum Expr {
    Identifier(TcIdent),
    Literal(LiteralStruct),
    Call(Box<LExpr>, Vec<LExpr>),
    IfElse(Box<LExpr>, Box<LExpr>, Option<Box<LExpr>>),
    Block(Vec<LExpr>),
    BinOp(Box<LExpr>, TcIdent, Box<LExpr>),
    Let(TcIdent, Box<LExpr>, Option<Box<LExpr>>),
    FieldAccess(Box<LExpr>, TcIdent),
    Lambda(LambdaStruct),
    Type(Symbol, ParsedType, Box<LExpr>),
    Record(TcIdent, Vec<RecordField>),
}

/// Why a text does not begin with an expression.
#[derive(Copy, Clone, Eq, PartialEq, Structural, Debug)]
pub enum ParseError {
    /// A comment at its start does not end.
    OpenComment,
    /// Something else stands at the position, where an expression should begin.
    NoExpression(usize),
    /// An expression begins at the position and does not go on as it should.
    Unfinished(usize),
}

/// What a type is, apart from how it is stored.
pub enum TypeTree {
    Generic(Seq<char>),
    Builtin(Primitive),
    Data(Seq<char>),
    App(Box<TypeTree>, Box<TypeTree>),
    Function(Seq<TypeTree>, Box<TypeTree>),
    Record(Seq<FieldTree>),
    Array(Box<TypeTree>),
}

pub struct FieldTree {
    pub name: Seq<char>,
    pub typ: TypeTree,
}

pub struct IdentTree {
    pub name: Seq<char>,
    pub typ: Option<TypeTree>,
}

/// What an expression is, apart from how it is stored.
pub enum Tree {
    Identifier(IdentTree),
    Integer(i64),
    Float(Seq<char>),
    Bool(bool),
    Call(Box<Node>, Seq<Node>),
    IfElse(Box<Node>, Box<Node>, Option<Box<Node>>),
    Block(Seq<Node>),
    BinOp(Box<Node>, IdentTree, Box<Node>),
    Let(IdentTree, Box<Node>, Option<Box<Node>>),
    FieldAccess(Box<Node>, IdentTree),
    Lambda(IdentTree, Seq<IdentTree>, Seq<IdentTree>, Box<Node>),
    Type(Seq<char>, TypeTree, Box<Node>),
    Record(IdentTree, Seq<RecordFieldTree>),
}

pub struct RecordFieldTree {
    pub name: Seq<char>,
    pub value: Node,
}

pub struct Node {
    pub location: Location,
    pub value: Tree,
}

pub open spec fn type_tree(typ: ParsedType) -> TypeTree
    decreases typ,
{
    match typ {
        ParsedType::Generic(id) => TypeTree::Generic(id@),
        ParsedType::Builtin(b) => TypeTree::Builtin(b),
        ParsedType::Data(id) => TypeTree::Data(id@),
        ParsedType::App(l, r) => TypeTree::App(Box::new(type_tree(*l)), Box::new(type_tree(*r))),
        ParsedType::Function(args, ret) => TypeTree::Function(
            type_trees(args@),
            Box::new(type_tree(*ret)),
        ),
        ParsedType::Record(fields) => TypeTree::Record(field_trees(fields@)),
        ParsedType::Array(typ) => TypeTree::Array(Box::new(type_tree(*typ))),
    }
}

pub open spec fn type_trees(types: Seq<ParsedType>) -> Seq<TypeTree>
    decreases types,
{
    Seq::new(
        types.len(),
        |i: int|
            if 0 <= i < types.len() {
                type_tree(types[i])
            } else {
                arbitrary()
            },
    )
}

pub open spec fn field_trees(fields: Seq<ParsedField>) -> Seq<FieldTree>
    decreases fields,
{
    Seq::new(
        fields.len(),
        |i: int|
            if 0 <= i < fields.len() {
                FieldTree { name: fields[i].name@, typ: type_tree(fields[i].typ) }
            } else {
                arbitrary()
            },
    )
}

pub open spec fn ident_tree(ident: TcIdent) -> IdentTree {
    IdentTree {
        name: ident.name@,
        typ: match ident.typ {
            Some(typ) => Some(type_tree(typ)),
            None => None,
        },
    }
}

pub open spec fn ident_trees(idents: Seq<TcIdent>) -> Seq<IdentTree> {
    idents.map_values(|ident: TcIdent| ident_tree(ident))
}

pub open spec fn node(expr: LExpr) -> Node
    decreases expr,
{
    Node { location: expr.location, value: tree(expr.value) }
}

pub open spec fn nodes(exprs: Seq<LExpr>) -> Seq<Node>
    decreases exprs,
{
    Seq::new(
        exprs.len(),
        |i: int|
            if 0 <= i < exprs.len() {
                node(exprs[i])
            } else {
                arbitrary()
            },
    )
}

pub open spec fn record_field_trees(fields: Seq<RecordField>) -> Seq<RecordFieldTree>
    decreases fields,
{
    Seq::new(
        fields.len(),
        |i: int|
            if 0 <= i < fields.len() {
                RecordFieldTree { name: fields[i].name@, value: node(fields[i].value) }
            } else {
                arbitrary()
            },
    )
}

pub open spec fn tree(expr: Expr) -> Tree
    decreases expr,
{
    match expr {
        Expr::Identifier(id) => Tree::Identifier(ident_tree(id)),
        Expr::Literal(LiteralStruct::Integer(n)) => Tree::Integer(n),
        Expr::Literal(LiteralStruct::Float(text)) => Tree::Float(text@),
        Expr::Literal(LiteralStruct::Bool(b)) => Tree::Bool(b),
        Expr::Call(f, args) => Tree::Call(Box::new(node(*f)), nodes(args@)),
        Expr::IfElse(p, t, f) => Tree::IfElse(
            Box::new(node(*p)),
            Box::new(node(*t)),
            match f {
                Some(f) => Some(Box::new(node(*f))),
                None => None,
            },
        ),
        Expr::Block(exprs) => Tree::Block(nodes(exprs@)),
        Expr::BinOp(l, op, r) => Tree::BinOp(
            Box::new(node(*l)),
            ident_tree(op),
            Box::new(node(*r)),
        ),
        Expr::Let(id, bound, body) => Tree::Let(
            ident_tree(id),
            Box::new(node(*bound)),
            match body {
                Some(body) => Some(Box::new(node(*body))),
                None => None,
            },
        ),
        Expr::FieldAccess(expr, field) => Tree::FieldAccess(
            Box::new(node(*expr)),
            ident_tree(field),
        ),
        Expr::Lambda(lambda) => Tree::Lambda(
            ident_tree(lambda.id),
            ident_trees(lambda.free_vars@),
            ident_trees(lambda.arguments@),
            Box::new(node(*lambda.body)),
        ),
        Expr::Type(name, typ, body) => Tree::Type(name@, type_tree(typ), Box::new(node(*body))),
        Expr::Record(id, fields) => Tree::Record(ident_tree(id), record_field_trees(fields@)),
    }
}

/// The precedence of the operator `op`: those with a higher one bind tighter.
pub open spec fn precedence_of(op: Seq<char>) -> i32 {
    if op == "&&"@ || op == "||"@ {
        0
    } else if op == "*"@ || op == "/"@ || op == "%"@ {
        3
    } else if op == "+"@ || op == "-"@ || op == "=="@ || op == "/="@ || op == "<"@ || op == ">"@
        || op == "<="@ || op == ">="@ {
        1
    } else {
        9
    }
}

/// The precedence of the operator `op`.
pub fn precedence(op: &Symbol) -> (res: i32)
    ensures
        res == precedence_of(op@),
{
    let name = op.as_str().to_owned();
    if name == "&&".to_owned() || name == "||".to_owned() {
        0
    } else if name == "*".to_owned() || name == "/".to_owned() || name == "%".to_owned() {
        3
    } else if name == "+".to_owned() || name == "-".to_owned() || name == "==".to_owned() || name
        == "/=".to_owned() || name == "<".to_owned() || name == ">".to_owned() || name
        == "<=".to_owned() || name == ">=".to_owned() {
        1
    } else {
        9
    }
}

/// The built in type `name`.
pub open spec fn primitive_named(name: Seq<char>) -> Option<Primitive> {
    if name == "Int"@ {
        Some(Primitive::Int)
    } else if name == "Float"@ {
        Some(Primitive::Float)
    } else if name == "String"@ {
        Some(Primitive::String)
    } else if name == "Bool"@ {
        Some(Primitive::Bool)
    } else {
        None
    }
}

/// The built in type `name`.
pub fn str_to_primitive_type(name: &str) -> (res: Option<Primitive>)
    ensures
        res == primitive_named(name@),
{
    let name = name.to_owned();
    if name == "Int".to_owned() {
        Some(Primitive::Int)
    } else if name == "Float".to_owned() {
        Some(Primitive::Float)
    } else if name == "String".to_owned() {
        Some(Primitive::String)
    } else if name == "Bool".to_owned() {
        Some(Primitive::Bool)
    } else {
        None
    }
}

/// The line of the position `p`, from 1 on.
pub open spec fn row_at(t: Seq<char>, p: int) -> int
    decreases p,
{
    if p <= 0 || p > t.len() {
        1
    } else if t[p - 1] == '\n' {
        row_at(t, p - 1) + 1
    } else {
        row_at(t, p - 1)
    }
}

/// The column of the position `p`, from 1 on.
pub open spec fn column_at(t: Seq<char>, p: int) -> int
    decreases p,
{
    if p <= 0 || p > t.len() || t[p - 1] == '\n' {
        1
    } else {
        column_at(t, p - 1) + 1
    }
}

pub open spec fn location_at(t: Seq<char>, p: int) -> Location {
    Location { column: column_at(t, p) as i32, row: row_at(t, p) as i32, absolute: 0 }
}

pub open spec fn untyped(name: Seq<char>) -> IdentTree {
    IdentTree { name, typ: None }
}

/// The type that is the name `name`.
pub open spec fn named_type(name: Seq<char>) -> TypeTree {
    if name.len() > 0 && is_lowercase(name[0]) {
        TypeTree::Generic(name)
    } else {
        match primitive_named(name) {
            Some(prim) => TypeTree::Builtin(prim),
            None => TypeTree::Data(name),
        }
    }
}

/// `read` when something stands before it.
pub open spec fn after<T>(read: Read<T>) -> Read<T> {
    match read {
        Read::Empty => Read::Failed,
        other => other,
    }
}

/// `value` up to the closing `c` at `p`.
pub open spec fn closed_by<T>(t: Seq<char>, value: T, p: int, c: char) -> Read<T> {
    match char_at(t, p, c) {
        Read::Done(_, q) => Read::Done(value, q),
        _ => Read::Failed,
    }
}

/// The type at `p`: types next to each other are applied, an arrow makes a function type.
pub open spec fn type_at(t: Seq<char>, p: int) -> Read<TypeTree>
    decreases t.len() - p, 2nat,
{
    match type_arg_at(t, p) {
        Read::Done(first, q) if p < q <= t.len() => match type_args_at(t, q, first) {
            Read::Done(arg, e) if q <= e <= t.len() => match reserved_op_at(t, e, "->"@) {
                Read::Done(_, r) if e < r <= t.len() => match type_at(t, r) {
                    Read::Done(ret, end) => Read::Done(
                        TypeTree::Function(seq![arg], Box::new(ret)),
                        end,
                    ),
                    _ => Read::Failed,
                },
                Read::Empty => Read::Done(arg, e),
                _ => Read::Failed,
            },
            _ => Read::Failed,
        },
        Read::Empty => Read::Empty,
        _ => Read::Failed,
    }
}

/// `first` applied to the types from `p` on.
pub open spec fn type_args_at(t: Seq<char>, p: int, first: TypeTree) -> Read<TypeTree>
    decreases t.len() - p, 2nat,
{
    match type_arg_at(t, p) {
        Read::Done(arg, q) if p < q <= t.len() => type_args_at(
            t,
            q,
            TypeTree::App(Box::new(first), Box::new(arg)),
        ),
        Read::Empty => Read::Done(first, p),
        _ => Read::Failed,
    }
}

/// An array type, a record type, a type in parentheses or a name at `p`.
pub open spec fn type_arg_at(t: Seq<char>, p: int) -> Read<TypeTree>
    decreases t.len() - p, 1nat,
{
    match char_at(t, p, '[') {
        Read::Done(_, q) if p < q <= t.len() => match type_at(t, q) {
            Read::Done(typ, e) => closed_by(t, TypeTree::Array(Box::new(typ)), e, ']'),
            _ => Read::Failed,
        },
        Read::Empty => match record_type_at(t, p) {
            Read::Empty => match char_at(t, p, '(') {
                Read::Done(_, q) if p < q <= t.len() => match type_at(t, q) {
                    Read::Done(typ, e) => closed_by(t, typ, e, ')'),
                    Read::Empty => closed_by(t, TypeTree::Builtin(Primitive::Unit), q, ')'),
                    Read::Failed => Read::Failed,
                },
                Read::Empty => match tried(name_at(t, p)) {
                    Read::Done(name, q) => Read::Done(named_type(name), q),
                    _ => Read::Empty,
                },
                _ => Read::Failed,
            },
            other => other,
        },
        _ => Read::Failed,
    }
}

pub open spec fn record_type_at(t: Seq<char>, p: int) -> Read<TypeTree>
    decreases t.len() - p, 0nat,
{
    match char_at(t, p, '{') {
        Read::Done(_, q) if p < q <= t.len() => match type_field_at(t, q) {
            Read::Done(field, e) if q < e <= t.len() => match type_fields_at(t, e, seq![field]) {
                Read::Done(fields, e) => closed_by(t, TypeTree::Record(fields), e, '}'),
                _ => Read::Failed,
            },
            Read::Empty => closed_by(t, TypeTree::Record(Seq::empty()), q, '}'),
            _ => Read::Failed,
        },
        Read::Empty => Read::Empty,
        _ => Read::Failed,
    }
}

pub open spec fn type_field_at(t: Seq<char>, p: int) -> Read<FieldTree>
    decreases t.len() - p, 0nat,
{
    match ident_at(t, p) {
        Read::Done(name, q) if p < q <= t.len() => match char_at(t, q, ':') {
            Read::Done(_, r) if q < r <= t.len() => match type_at(t, r) {
                Read::Done(typ, e) => Read::Done(FieldTree { name, typ }, e),
                _ => Read::Failed,
            },
            _ => Read::Failed,
        },
        Read::Empty => Read::Empty,
        _ => Read::Failed,
    }
}

pub open spec fn type_fields_at(t: Seq<char>, p: int, fields: Seq<FieldTree>) -> Read<
    Seq<FieldTree>,
>
    decreases t.len() - p, 2nat,
{
    match char_at(t, p, ',') {
        Read::Done(_, q) if p < q <= t.len() => match type_field_at(t, q) {
            Read::Done(field, e) if q < e <= t.len() => type_fields_at(t, e, fields.push(field)),
            _ => Read::Failed,
        },
        Read::Empty => Read::Done(fields, p),
        _ => Read::Failed,
    }
}

impl Reading<ParsedType> {
    /// The type that was read at `p` is what stands there.
    pub open spec fn is_type(self, read: Read<TypeTree>, t: Seq<char>, p: int) -> bool {
        match (self, read) {
            (Reading::Done(typ, q), Read::Done(text, e)) => type_tree(typ) == text && q == e && p
                < q <= t.len(),
            (Reading::Empty, Read::Empty) => true,
            (Reading::Failed, Read::Failed) => true,
            _ => false,
        }
    }
}

impl Reading<ParsedField> {
    pub open spec fn is_field(self, read: Read<FieldTree>, t: Seq<char>, p: int) -> bool {
        match (self, read) {
            (Reading::Done(field, q), Read::Done(text, e)) => FieldTree {
                name: field.name@,
                typ: type_tree(field.typ),
            } == text && q == e && p < q <= t.len(),
            (Reading::Empty, Read::Empty) => true,
            (Reading::Failed, Read::Failed) => true,
            _ => false,
        }
    }
}

/// Reads expressions out of a text.
struct Parser<'a> {
    lexer: Lexer<'a>,
    /// Whether the types of bindings are kept.
    typed: bool,
}

/// Closes `value` with `c` at `p`.
fn close(lexer: &Lexer, value: ParsedType, p: usize, c: char, Ghost(start): Ghost<int>) -> (res:
    Reading<ParsedType>)
    requires
        start < p <= lexer@.len(),
    ensures
        res.is_type(closed_by(lexer@, type_tree(value), p as int, c), lexer@, start),
{
    match lexer.character(p, c) {
        Reading::Done(_, q) => Reading::Done(value, q),
        _ => Reading::Failed,
    }
}

/// The type that is the name `name`.
fn to_type(name: String) -> (res: ParsedType)
    ensures
        type_tree(res) == named_type(name@),
{
    if name.as_str().unicode_len() > 0 && lowercase(name.as_str().get_char(0)) {
        return ParsedType::Generic(Symbol::new(name));
    }
    match str_to_primitive_type(name.as_str()) {
        Some(prim) => ParsedType::Builtin(prim),
        None => ParsedType::Data(Symbol::new(name)),
    }
}

impl<'a> Parser<'a> {
    #[verifier::rlimit(40)]
    fn parse_type(&self, p: usize) -> (res: Reading<ParsedType>)
        requires
            p <= self.lexer@.len(),
        ensures
            res.is_type(type_at(self.lexer@, p as int), self.lexer@, p as int),
        decreases self.lexer@.len() - p, 2nat,
    {
        let (first, q) = match self.type_arg(p) {
            Reading::Done(first, q) => (first, q),
            Reading::Empty => {
                return Reading::Empty;
            },
            Reading::Failed => {
                return Reading::Failed;
            },
        };
        let (arg, e) = match self.type_args(q, first) {
            Some(applied) => applied,
            None => {
                return Reading::Failed;
            },
        };
        proof {
            reveal_strlit("->");
        }
        match self.lexer.reserved_op(e, "->") {
            Reading::Done(_, r) => match self.parse_type(r) {
                Reading::Done(ret, end) => {
                    let args = vec![arg];
                    assert(type_trees(args@) =~= seq![type_tree(arg)]);
                    Reading::Done(ParsedType::Function(args, Box::new(ret)), end)
                },
                _ => Reading::Failed,
            },
            Reading::Empty => Reading::Done(arg, e),
            Reading::Failed => Reading::Failed,
        }
    }

    fn type_args(&self, p: usize, first: ParsedType) -> (res: Option<(ParsedType, usize)>)
        requires
            p <= self.lexer@.len(),
        ensures
            match res {
                Some((typ, q)) => type_args_at(self.lexer@, p as int, type_tree(first))
                    == Read::Done(type_tree(typ), q as int) && p <= q <= self.lexer@.len(),
                None => type_args_at(self.lexer@, p as int, type_tree(first)) is Failed,
            },
        decreases self.lexer@.len() - p, 2nat,
    {
        match self.type_arg(p) {
            Reading::Done(arg, q) => {
                self.type_args(q, ParsedType::App(Box::new(first), Box::new(arg)))
            },
            Reading::Empty => Some((first, p)),
            Reading::Failed => None,
        }
    }

    #[verifier::rlimit(40)]
    fn type_arg(&self, p: usize) -> (res: Reading<ParsedType>)
        requires
            p <= self.lexer@.len(),
        ensures
            res.is_type(type_arg_at(self.lexer@, p as int), self.lexer@, p as int),
        decreases self.lexer@.len() - p, 1nat,
    {
        match self.lexer.character(p, '[') {
            Reading::Done(_, q) => {
                return match self.parse_type(q) {
                    Reading::Done(typ, e) => close(
                        &self.lexer,
                        ParsedType::Array(Box::new(typ)),
                        e,
                        ']',
                        Ghost(p as int),
                    ),
                    _ => Reading::Failed,
                };
            },
            Reading::Failed => {
                return Reading::Failed;
            },
            Reading::Empty => {},
        }
        match self.record_type(p) {
            Reading::Empty => {},
            other => {
                return other;
            },
        }
        match self.lexer.character(p, '(') {
            Reading::Done(_, q) => {
                return match self.parse_type(q) {
                    Reading::Done(typ, e) => close(&self.lexer, typ, e, ')', Ghost(p as int)),
                    Reading::Empty => close(
                        &self.lexer,
                        ParsedType::Builtin(Primitive::Unit),
                        q,
                        ')',
                        Ghost(p as int),
                    ),
                    Reading::Failed => Reading::Failed,
                };
            },
            Reading::Failed => {
                return Reading::Failed;
            },
            Reading::Empty => {},
        }
        match self.lexer.plain_name(p) {
            Reading::Done(name, q) => Reading::Done(to_type(name), q),
            _ => Reading::Empty,
        }
    }

    #[verifier::rlimit(40)]
    fn record_type(&self, p: usize) -> (res: Reading<ParsedType>)
        requires
            p <= self.lexer@.len(),
        ensures
            res.is_type(record_type_at(self.lexer@, p as int), self.lexer@, p as int),
        decreases self.lexer@.len() - p, 0nat,
    {
        match self.lexer.character(p, '{') {
            Reading::Done(_, q) => {
                let mut fields: Vec<ParsedField> = Vec::new();
                assert(field_trees(fields@) =~= Seq::<FieldTree>::empty());
                match self.type_field(q) {
                    Reading::Done(field, e) => {
                        let ghost first = FieldTree {
                            name: field.name@,
                            typ: type_tree(field.typ),
                        };
                        fields.push(field);
                        assert(field_trees(fields@) =~= seq![first]);
                        match self.type_fields(e, fields) {
                            Some((fields, e)) => close(
                                &self.lexer,
                                ParsedType::Record(fields),
                                e,
                                '}',
                                Ghost(p as int),
                            ),
                            None => Reading::Failed,
                        }
                    },
                    Reading::Empty => close(
                        &self.lexer,
                        ParsedType::Record(fields),
                        q,
                        '}',
                        Ghost(p as int),
                    ),
                    Reading::Failed => Reading::Failed,
                }
            },
            Reading::Empty => Reading::Empty,
            Reading::Failed => Reading::Failed,
        }
    }

    fn type_field(&self, p: usize) -> (res: Reading<ParsedField>)
        requires
            p <= self.lexer@.len(),
        ensures
            res.is_field(type_field_at(self.lexer@, p as int), self.lexer@, p as int),
        decreases self.lexer@.len() - p, 0nat,
    {
        match self.lexer.ident(p) {
            Reading::Done(name, q) => match self.lexer.character(q, ':') {
                Reading::Done(_, r) => match self.parse_type(r) {
                    Reading::Done(typ, e) => Reading::Done(
                        ParsedField { name: Symbol::new(name), typ },
                        e,
                    ),
                    _ => Reading::Failed,
                },
                _ => Reading::Failed,
            },
            Reading::Empty => Reading::Empty,
            Reading::Failed => Reading::Failed,
        }
    }

    fn type_fields(&self, p: usize, fields: Vec<ParsedField>) -> (res: Option<
        (Vec<ParsedField>, usize),
    >)
        requires
            p <= self.lexer@.len(),
        ensures
            match res {
                Some((all, q)) => type_fields_at(self.lexer@, p as int, field_trees(fields@))
                    == Read::Done(field_trees(all@), q as int) && p <= q <= self.lexer@.len(),
                None => type_fields_at(self.lexer@, p as int, field_trees(fields@)) is Failed,
            },
        decreases self.lexer@.len() - p, 2nat,
    {
        match self.lexer.character(p, ',') {
            Reading::Done(_, q) => match self.type_field(q) {
                Reading::Done(field, e) => {
                    let ghost before = fields@;
                    let ghost new = FieldTree { name: field.name@, typ: type_tree(field.typ) };
                    let mut fields = fields;
                    fields.push(field);
                    assert(field_trees(fields@) =~= field_trees(before).push(new));
                    self.type_fields(e, fields)
                },
                _ => None,
            },
            Reading::Empty => Some((fields, p)),
            Reading::Failed => None,
        }
    }
}

/// The type behind a colon at `p`, if there is one.
pub open spec fn annotation_at(t: Seq<char>, p: int) -> Read<Option<TypeTree>> {
    match reserved_op_at(t, p, ":"@) {
        Read::Done(_, q) => match type_at(t, q) {
            Read::Done(typ, e) => Read::Done(Some(typ), e),
            _ => Read::Failed,
        },
        Read::Empty => Read::Done(None, p),
        Read::Failed => Read::Failed,
    }
}

/// The names from `p` on.
pub open spec fn idents_at(t: Seq<char>, p: int, idents: Seq<IdentTree>) -> Read<Seq<IdentTree>>
    decreases t.len() - p,
{
    match ident_at(t, p) {
        Read::Done(name, q) if p < q <= t.len() => idents_at(t, q, idents.push(untyped(name))),
        Read::Empty => Read::Done(idents, p),
        _ => Read::Failed,
    }
}

/// The word `name` at `p` and the expression behind it.
pub open spec fn clause_at(t: Seq<char>, typed: bool, p: int, name: Seq<char>) -> Read<Node>
    decreases t.len() - p, 0nat,
{
    match word_at(t, p, name) {
        Read::Done(_, q) if p < q <= t.len() => after(expr_at(t, typed, q)),
        Read::Empty => Read::Empty,
        _ => Read::Failed,
    }
}

/// `if`, `then` and `else` at `p`.
pub open spec fn if_else_at(t: Seq<char>, typed: bool, p: int) -> Read<Tree>
    decreases t.len() - p, 1nat,
{
    match clause_at(t, typed, p, "if"@) {
        Read::Done(pred, q) if p < q <= t.len() => match clause_at(t, typed, q, "then"@) {
            Read::Done(yes, r) if q < r <= t.len() => match clause_at(t, typed, r, "else"@) {
                Read::Done(no, e) => Read::Done(
                    Tree::IfElse(Box::new(pred), Box::new(yes), Some(Box::new(no))),
                    e,
                ),
                _ => Read::Failed,
            },
            _ => Read::Failed,
        },
        Read::Empty => Read::Empty,
        _ => Read::Failed,
    }
}

/// A binding and the expression that it is for at `p`.
pub open spec fn let_in_at(t: Seq<char>, typed: bool, p: int) -> Read<Tree>
    decreases t.len() - p, 1nat,
{
    match word_at(t, p, "let"@) {
        Read::Done(_, q) if p < q <= t.len() => match ident_at(t, q) {
            Read::Done(name, r) if q < r <= t.len() => match annotation_at(t, r) {
                Read::Done(typ, a) if r <= a <= t.len() => match reserved_op_at(t, a, "="@) {
                    Read::Done(_, b) if a < b <= t.len() => match expr_at(t, typed, b) {
                        Read::Done(bound, c) if b < c <= t.len() => match clause_at(
                            t,
                            typed,
                            c,
                            "in"@,
                        ) {
                            Read::Done(body, e) => Read::Done(
                                Tree::Let(
                                    IdentTree {
                                        name,
                                        typ: if typed {
                                            typ
                                        } else {
                                            None
                                        },
                                    },
                                    Box::new(bound),
                                    Some(Box::new(body)),
                                ),
                                e,
                            ),
                            _ => Read::Failed,
                        },
                        _ => Read::Failed,
                    },
                    _ => Read::Failed,
                },
                _ => Read::Failed,
            },
            _ => Read::Failed,
        },
        Read::Empty => Read::Empty,
        _ => Read::Failed,
    }
}

/// A function at `p`.
pub open spec fn lambda_at(t: Seq<char>, typed: bool, p: int) -> Read<Tree>
    decreases t.len() - p, 1nat,
{
    match char_at(t, p, '\\') {
        Read::Done(_, q) if p < q <= t.len() => match idents_at(t, q, Seq::empty()) {
            Read::Done(args, r) if q <= r <= t.len() => match arrow_at(t, r) {
                Read::Done(_, b) if r < b <= t.len() => match expr_at(t, typed, b) {
                    Read::Done(body, e) => Read::Done(
                        Tree::Lambda(untyped(""@), Seq::empty(), args, Box::new(body)),
                        e,
                    ),
                    _ => Read::Failed,
                },
                _ => Read::Failed,
            },
            _ => Read::Failed,
        },
        Read::Empty => Read::Empty,
        _ => Read::Failed,
    }
}

/// A type declaration and the expression that it is for at `p`.
pub open spec fn type_decl_at(t: Seq<char>, typed: bool, p: int) -> Read<Tree>
    decreases t.len() - p, 1nat,
{
    match word_at(t, p, "type"@) {
        Read::Done(_, q) if p < q <= t.len() => match ident_at(t, q) {
            Read::Done(name, r) if q < r <= t.len() => match reserved_op_at(t, r, "="@) {
                Read::Done(_, a) if r < a <= t.len() => match type_at(t, a) {
                    Read::Done(typ, b) if a < b <= t.len() => match clause_at(
                        t,
                        typed,
                        b,
                        "in"@,
                    ) {
                        Read::Done(body, e) => Read::Done(
                            Tree::Type(name, typ, Box::new(body)),
                            e,
                        ),
                        _ => Read::Failed,
                    },
                    _ => Read::Failed,
                },
                _ => Read::Failed,
            },
            _ => Read::Failed,
        },
        Read::Empty => Read::Empty,
        _ => Read::Failed,
    }
}

/// A record at `p`.
pub open spec fn record_at(t: Seq<char>, typed: bool, p: int) -> Read<Tree>
    decreases t.len() - p, 1nat,
{
    match char_at(t, p, '{') {
        Read::Done(_, q) if p < q <= t.len() => match field_at(t, typed, q) {
            Read::Done(field, e) if q < e <= t.len() => match fields_at(
                t,
                typed,
                e,
                seq![field],
            ) {
                Read::Done(fields, e) => closed_by(t, Tree::Record(untyped(""@), fields), e, '}'),
                _ => Read::Failed,
            },
            Read::Empty => closed_by(t, Tree::Record(untyped(""@), Seq::empty()), q, '}'),
            _ => Read::Failed,
        },
        Read::Empty => Read::Empty,
        _ => Read::Failed,
    }
}

pub open spec fn field_at(t: Seq<char>, typed: bool, p: int) -> Read<RecordFieldTree>
    decreases t.len() - p, 0nat,
{
    match ident_at(t, p) {
        Read::Done(name, q) if p < q <= t.len() => match char_at(t, q, ':') {
            Read::Done(_, r) if q < r <= t.len() => match expr_at(t, typed, r) {
                Read::Done(value, e) => Read::Done(RecordFieldTree { name, value }, e),
                _ => Read::Failed,
            },
            _ => Read::Failed,
        },
        Read::Empty => Read::Empty,
        _ => Read::Failed,
    }
}

pub open spec fn fields_at(
    t: Seq<char>,
    typed: bool,
    p: int,
    fields: Seq<RecordFieldTree>,
) -> Read<Seq<RecordFieldTree>>
    decreases t.len() - p, 5nat,
{
    match char_at(t, p, ',') {
        Read::Done(_, q) if p < q <= t.len() => match field_at(t, typed, q) {
            Read::Done(field, e) if q < e <= t.len() => fields_at(t, typed, e, fields.push(field)),
            _ => Read::Failed,
        },
        Read::Empty => Read::Done(fields, p),
        _ => Read::Failed,
    }
}

pub open spec fn map_tree(read: Read<Tree>, location: Location) -> Read<Node> {
    match read {
        Read::Done(value, e) => Read::Done(Node { location, value }, e),
        Read::Empty => Read::Empty,
        Read::Failed => Read::Failed,
    }
}

/// A number, a truth value or a name at `p`.
pub open spec fn atom_at(t: Seq<char>, p: int) -> Read<Tree> {
    match integer_at(t, p) {
        Read::Done(n, e) => Read::Done(Tree::Integer(n), e),
        _ => match float_at(t, p) {
            Read::Done(text, e) => Read::Done(Tree::Float(text), e),
            _ => match word_at(t, p, "True"@) {
                Read::Done(_, e) => Read::Done(Tree::Bool(true), e),
                Read::Failed => Read::Failed,
                Read::Empty => match word_at(t, p, "False"@) {
                    Read::Done(_, e) => Read::Done(Tree::Bool(false), e),
                    Read::Failed => Read::Failed,
                    Read::Empty => match ident_at(t, p) {
                        Read::Done(name, e) => Read::Done(Tree::Identifier(untyped(name)), e),
                        Read::Failed => Read::Failed,
                        Read::Empty => Read::Empty,
                    },
                },
            },
        },
    }
}

/// An expression that begins with a keyword, or an atom or a record, at `p`.
pub open spec fn simple_at(t: Seq<char>, typed: bool, p: int) -> Read<Tree>
    decreases t.len() - p, 2nat,
{
    match if_else_at(t, typed, p) {
        Read::Empty => match let_in_at(t, typed, p) {
            Read::Empty => match lambda_at(t, typed, p) {
                Read::Empty => match type_decl_at(t, typed, p) {
                    Read::Empty => match atom_at(t, p) {
                        Read::Empty => record_at(t, typed, p),
                        other => other,
                    },
                    other => other,
                },
                other => other,
            },
            other => other,
        },
        other => other,
    }
}

/// An expression in parentheses at `p`. Without an expression it is an empty block.
pub open spec fn enclosed_at(t: Seq<char>, typed: bool, p: int) -> Read<Node>
    decreases t.len() - p, 1nat,
{
    match char_at(t, p, '(') {
        Read::Done(_, q) if p < q <= t.len() => match expr_at(t, typed, q) {
            Read::Done(expr, e) => closed_by(t, expr, e, ')'),
            Read::Empty => closed_by(
                t,
                Node { location: location_at(t, p), value: Tree::Block(Seq::empty()) },
                q,
                ')',
            ),
            Read::Failed => Read::Failed,
        },
        Read::Empty => Read::Empty,
        _ => Read::Failed,
    }
}

/// The fields of `expr` that are accessed from `p` on.
pub open spec fn accesses_at(t: Seq<char>, p: int, expr: Node, location: Location) -> Read<Node>
    decreases t.len() - p,
{
    match char_at(t, p, '.') {
        Read::Done(_, q) if p < q <= t.len() => match ident_at(t, q) {
            Read::Done(name, e) if q < e <= t.len() => accesses_at(
                t,
                e,
                Node { location, value: Tree::FieldAccess(Box::new(expr), untyped(name)) },
                location,
            ),
            _ => Read::Failed,
        },
        Read::Empty => Read::Done(expr, p),
        _ => Read::Failed,
    }
}

/// An expression that can be an argument at `p`.
pub open spec fn arg_at(t: Seq<char>, typed: bool, p: int) -> Read<Node>
    decreases t.len() - p, 3nat,
{
    let first = match map_tree(simple_at(t, typed, p), location_at(t, p)) {
        Read::Empty => enclosed_at(t, typed, p),
        other => other,
    };
    match first {
        Read::Done(expr, q) => accesses_at(t, q, expr, location_at(t, p)),
        other => other,
    }
}

/// The arguments from `p` on.
pub open spec fn args_at(t: Seq<char>, typed: bool, p: int, args: Seq<Node>) -> Read<Seq<Node>>
    decreases t.len() - p, 4nat,
{
    match arg_at(t, typed, p) {
        Read::Done(arg, q) if p < q <= t.len() => args_at(t, typed, q, args.push(arg)),
        Read::Empty => Read::Done(args, p),
        _ => Read::Failed,
    }
}

/// A function and its arguments, or a single expression, at `p`.
pub open spec fn call_at(t: Seq<char>, typed: bool, p: int) -> Read<Node>
    decreases t.len() - p, 4nat,
{
    match arg_at(t, typed, p) {
        Read::Done(f, q) if p < q <= t.len() => match args_at(t, typed, q, Seq::empty()) {
            Read::Done(args, e) => Read::Done(
                if args.len() > 0 {
                    Node { location: f.location, value: Tree::Call(Box::new(f), args) }
                } else {
                    f
                },
                e,
            ),
            _ => Read::Failed,
        },
        Read::Empty => Read::Empty,
        _ => Read::Failed,
    }
}

/// The operators and operands behind `l` from `p` on. All operators associate to the left.
pub open spec fn operations_at(t: Seq<char>, typed: bool, p: int, l: Node) -> Read<Node>
    decreases t.len() - p, 5nat,
{
    match infix_at(t, p) {
        Read::Done(op, q) if p < q <= t.len() => match call_at(t, typed, q) {
            Read::Done(r, e) if q < e <= t.len() => operations_at(
                t,
                typed,
                e,
                Node {
                    location: l.location,
                    value: Tree::BinOp(Box::new(l), untyped(op), Box::new(r)),
                },
            ),
            _ => Read::Failed,
        },
        Read::Empty => Read::Done(l, p),
        _ => Read::Failed,
    }
}

/// The expression at `p`.
pub open spec fn expr_at(t: Seq<char>, typed: bool, p: int) -> Read<Node>
    decreases t.len() - p, 5nat,
{
    match call_at(t, typed, p) {
        Read::Done(l, q) if p < q <= t.len() => operations_at(t, typed, q, l),
        Read::Empty => Read::Empty,
        _ => Read::Failed,
    }
}

/// The expression that the text begins with.
pub open spec fn parsed(t: Seq<char>, typed: bool) -> Option<Node> {
    match blank_end(t, 0, Blank::Space) {
        Some(q) => match expr_at(t, typed, q) {
            Read::Done(expr, _) => Some(expr),
            _ => None,
        },
        None => None,
    }
}

impl Reading<Expr> {
    pub open spec fn is_tree(self, read: Read<Tree>, t: Seq<char>, p: int) -> bool {
        match (self, read) {
            (Reading::Done(expr, q), Read::Done(text, e)) => tree(expr) == text && q == e && p < q
                <= t.len(),
            (Reading::Empty, Read::Empty) => true,
            (Reading::Failed, Read::Failed) => true,
            _ => false,
        }
    }
}

impl Reading<LExpr> {
    pub open spec fn is_node(self, read: Read<Node>, t: Seq<char>, p: int) -> bool {
        match (self, read) {
            (Reading::Done(expr, q), Read::Done(text, e)) => node(expr) == text && q == e && p < q
                <= t.len(),
            (Reading::Empty, Read::Empty) => true,
            (Reading::Failed, Read::Failed) => true,
            _ => false,
        }
    }
}

impl Reading<RecordField> {
    pub open spec fn is_record_field(self, read: Read<RecordFieldTree>, t: Seq<char>, p: int) -> bool {
        match (self, read) {
            (Reading::Done(field, q), Read::Done(text, e)) => RecordFieldTree {
                name: field.name@,
                value: node(field.value),
            } == text && q == e && p < q <= t.len(),
            (Reading::Empty, Read::Empty) => true,
            (Reading::Failed, Read::Failed) => true,
            _ => false,
        }
    }
}

/// An identifier without a type.
fn untyped_ident(name: String) -> (res: TcIdent)
    ensures
        ident_tree(res) == untyped(name@),
{
    TcIdent { name: Symbol::new(name), typ: None }
}

impl<'a> Parser<'a> {
    spec fn fits(&self) -> bool {
        self.lexer@.len() < i32::MAX
    }

    /// Where `p` stands.
    fn location(&self, p: usize) -> (res: Location)
        requires
            self.fits(),
            p <= self.lexer@.len(),
        ensures
            res == location_at(self.lexer@, p as int),
    {
        let mut column: i32 = 1;
        let mut row: i32 = 1;
        let mut i: usize = 0;
        while i < p
            invariant
                self.fits(),
                i <= p <= self.lexer@.len(),
                column == column_at(self.lexer@, i as int),
                row == row_at(self.lexer@, i as int),
                1 <= column <= i + 1,
                1 <= row <= i + 1,
            decreases p - i,
        {
            if self.lexer.breaks_line(i) {
                column = 1;
                row += 1;
            } else {
                column += 1;
            }
            i += 1;
        }
        Location { column, row, absolute: 0 }
    }

    fn annotation(&self, p: usize) -> (res: Option<(Option<ParsedType>, usize)>)
        requires
            p <= self.lexer@.len(),
        ensures
            match res {
                Some((typ, q)) => annotation_at(self.lexer@, p as int) == Read::Done(
                    match typ {
                        Some(typ) => Some(type_tree(typ)),
                        None => None,
                    },
                    q as int,
                ) && p <= q <= self.lexer@.len(),
                None => annotation_at(self.lexer@, p as int) is Failed,
            },
    {
        proof {
            reveal_strlit(":");
        }
        match self.lexer.reserved_op(p, ":") {
            Reading::Done(_, q) => match self.parse_type(q) {
                Reading::Done(typ, e) => Some((Some(typ), e)),
                _ => None,
            },
            Reading::Empty => Some((None, p)),
            Reading::Failed => None,
        }
    }

    fn idents(&self, p: usize) -> (res: Option<(Vec<TcIdent>, usize)>)
        requires
            p <= self.lexer@.len(),
        ensures
            match res {
                Some((idents, q)) => idents_at(self.lexer@, p as int, Seq::empty()) == Read::Done(
                    ident_trees(idents@),
                    q as int,
                ) && p <= q <= self.lexer@.len(),
                None => idents_at(self.lexer@, p as int, Seq::empty()) is Failed,
            },
    {
        let mut idents: Vec<TcIdent> = Vec::new();
        let mut q: usize = p;
        assert(ident_trees(idents@) =~= Seq::<IdentTree>::empty());
        loop
            invariant
                p <= q <= self.lexer@.len(),
                idents_at(self.lexer@, p as int, Seq::empty()) == idents_at(
                    self.lexer@,
                    q as int,
                    ident_trees(idents@),
                ),
            decreases self.lexer@.len() - q,
        {
            match self.lexer.ident(q) {
                Reading::Done(name, e) => {
                    let ghost before = idents@;
                    let ghost new = untyped(name@);
                    idents.push(untyped_ident(name));
                    assert(ident_trees(idents@) =~= ident_trees(before).push(new));
                    q = e;
                },
                Reading::Empty => {
                    return Some((idents, q));
                },
                Reading::Failed => {
                    return None;
                },
            }
        }
    }

    #[verifier::rlimit(40)]
    fn clause(&self, p: usize, name: &str) -> (res: Reading<LExpr>)
        requires
            self.fits(),
            p <= self.lexer@.len(),
            name@.len() > 0,
        ensures
            res.is_node(
                clause_at(self.lexer@, self.typed, p as int, name@),
                self.lexer@,
                p as int,
            ),
        decreases self.lexer@.len() - p, 0nat,
    {
        match self.lexer.reserved(p, name) {
            Reading::Done(_, q) => match self.expr(q) {
                Reading::Empty => Reading::Failed,
                other => other,
            },
            Reading::Empty => Reading::Empty,
            Reading::Failed => Reading::Failed,
        }
    }

    #[verifier::rlimit(40)]
    fn if_else(&self, p: usize) -> (res: Reading<Expr>)
        requires
            self.fits(),
            p <= self.lexer@.len(),
        ensures
            res.is_tree(if_else_at(self.lexer@, self.typed, p as int), self.lexer@, p as int),
        decreases self.lexer@.len() - p, 1nat,
    {
        proof {
            reveal_strlit("if");
            reveal_strlit("then");
            reveal_strlit("else");
        }
        match self.clause(p, "if") {
            Reading::Done(pred, q) => match self.clause(q, "then") {
                Reading::Done(yes, r) => match self.clause(r, "else") {
                    Reading::Done(no, e) => Reading::Done(
                        Expr::IfElse(Box::new(pred), Box::new(yes), Some(Box::new(no))),
                        e,
                    ),
                    _ => Reading::Failed,
                },
                _ => Reading::Failed,
            },
            Reading::Empty => Reading::Empty,
            Reading::Failed => Reading::Failed,
        }
    }

    #[verifier::rlimit(40)]
    fn let_in(&self, p: usize) -> (res: Reading<Expr>)
        requires
            self.fits(),
            p <= self.lexer@.len(),
        ensures
            res.is_tree(let_in_at(self.lexer@, self.typed, p as int), self.lexer@, p as int),
        decreases self.lexer@.len() - p, 1nat,
    {
        proof {
            reveal_strlit("let");
            reveal_strlit("=");
            reveal_strlit("in");
        }
        let q: usize = match self.lexer.reserved(p, "let") {
            Reading::Done(_, q) => q,
            Reading::Empty => {
                return Reading::Empty;
            },
            Reading::Failed => {
                return Reading::Failed;
            },
        };
        if let Reading::Done(name, r) = self.lexer.ident(q) {
            if let Some((typ, a)) = self.annotation(r) {
                if let Reading::Done(_, b) = self.lexer.reserved_op(a, "=") {
                    if let Reading::Done(bound, c) = self.expr(b) {
                        if let Reading::Done(body, e) = self.clause(c, "in") {
                            let bind = TcIdent {
                                name: Symbol::new(name),
                                typ: if self.typed {
                                    typ
                                } else {
                                    None
                                },
                            };
                            return Reading::Done(
                                Expr::Let(bind, Box::new(bound), Some(Box::new(body))),
                                e,
                            );
                        }
                    }
                }
            }
        }
        Reading::Failed
    }

    #[verifier::rlimit(40)]
    fn lambda(&self, p: usize) -> (res: Reading<Expr>)
        requires
            self.fits(),
            p <= self.lexer@.len(),
        ensures
            res.is_tree(lambda_at(self.lexer@, self.typed, p as int), self.lexer@, p as int),
        decreases self.lexer@.len() - p, 1nat,
    {
        let q: usize = match self.lexer.character(p, '\\') {
            Reading::Done(_, q) => q,
            Reading::Empty => {
                return Reading::Empty;
            },
            Reading::Failed => {
                return Reading::Failed;
            },
        };
        if let Some((arguments, r)) = self.idents(q) {
            if let Reading::Done(_, b) = self.lexer.arrow(r) {
                if let Reading::Done(body, e) = self.expr(b) {
                    let free_vars: Vec<TcIdent> = Vec::new();
                    assert(ident_trees(free_vars@) =~= Seq::<IdentTree>::empty());
                    return Reading::Done(
                        Expr::Lambda(
                            LambdaStruct {
                                id: untyped_ident("".to_owned()),
                                free_vars,
                                arguments,
                                body: Box::new(body),
                            },
                        ),
                        e,
                    );
                }
            }
        }
        Reading::Failed
    }

    #[verifier::rlimit(40)]
    fn type_decl(&self, p: usize) -> (res: Reading<Expr>)
        requires
            self.fits(),
            p <= self.lexer@.len(),
        ensures
            res.is_tree(type_decl_at(self.lexer@, self.typed, p as int), self.lexer@, p as int),
        decreases self.lexer@.len() - p, 1nat,
    {
        proof {
            reveal_strlit("type");
            reveal_strlit("=");
            reveal_strlit("in");
        }
        let q: usize = match self.lexer.reserved(p, "type") {
            Reading::Done(_, q) => q,
            Reading::Empty => {
                return Reading::Empty;
            },
            Reading::Failed => {
                return Reading::Failed;
            },
        };
        if let Reading::Done(name, r) = self.lexer.ident(q) {
            if let Reading::Done(_, a) = self.lexer.reserved_op(r, "=") {
                if let Reading::Done(typ, b) = self.parse_type(a) {
                    if let Reading::Done(body, e) = self.clause(b, "in") {
                        return Reading::Done(
                            Expr::Type(Symbol::new(name), typ, Box::new(body)),
                            e,
                        );
                    }
                }
            }
        }
        Reading::Failed
    }

    #[verifier::rlimit(40)]
    fn field(&self, p: usize) -> (res: Reading<RecordField>)
        requires
            self.fits(),
            p <= self.lexer@.len(),
        ensures
            res.is_record_field(
                field_at(self.lexer@, self.typed, p as int),
                self.lexer@,
                p as int,
            ),
        decreases self.lexer@.len() - p, 0nat,
    {
        match self.lexer.ident(p) {
            Reading::Done(name, q) => match self.lexer.character(q, ':') {
                Reading::Done(_, r) => match self.expr(r) {
                    Reading::Done(value, e) => Reading::Done(
                        RecordField { name: Symbol::new(name), value },
                        e,
                    ),
                    _ => Reading::Failed,
                },
                _ => Reading::Failed,
            },
            Reading::Empty => Reading::Empty,
            Reading::Failed => Reading::Failed,
        }
    }

    #[verifier::rlimit(40)]
    fn fields(&self, p: usize, fields: Vec<RecordField>) -> (res: Option<
        (Vec<RecordField>, usize),
    >)
        requires
            self.fits(),
            p <= self.lexer@.len(),
        ensures
            match res {
                Some((all, q)) => fields_at(
                    self.lexer@,
                    self.typed,
                    p as int,
                    record_field_trees(fields@),
                ) == Read::Done(record_field_trees(all@), q as int) && p <= q <= self.lexer@.len(),
                None => fields_at(
                    self.lexer@,
                    self.typed,
                    p as int,
                    record_field_trees(fields@),
                ) is Failed,
            },
        decreases self.lexer@.len() - p, 5nat,
    {
        match self.lexer.character(p, ',') {
            Reading::Done(_, q) => match self.field(q) {
                Reading::Done(field, e) => {
                    let ghost before = fields@;
                    let ghost new = RecordFieldTree { name: field.name@, value: node(field.value) };
                    let mut fields = fields;
                    fields.push(field);
                    assert(record_field_trees(fields@) =~= record_field_trees(before).push(new));
                    self.fields(e, fields)
                },
                _ => None,
            },
            Reading::Empty => Some((fields, p)),
            Reading::Failed => None,
        }
    }

    #[verifier::rlimit(40)]
    fn record(&self, p: usize) -> (res: Reading<Expr>)
        requires
            self.fits(),
            p <= self.lexer@.len(),
        ensures
            res.is_tree(record_at(self.lexer@, self.typed, p as int), self.lexer@, p as int),
        decreases self.lexer@.len() - p, 1nat,
    {
        let q: usize = match self.lexer.character(p, '{') {
            Reading::Done(_, q) => q,
            Reading::Empty => {
                return Reading::Empty;
            },
            Reading::Failed => {
                return Reading::Failed;
            },
        };
        let mut fields: Vec<RecordField> = Vec::new();
        assert(record_field_trees(fields@) =~= Seq::<RecordFieldTree>::empty());
        let mut end: usize = q;
        match self.field(q) {
            Reading::Done(field, e) => {
                let ghost first = RecordFieldTree { name: field.name@, value: node(field.value) };
                fields.push(field);
                assert(record_field_trees(fields@) =~= seq![first]);
                match self.fields(e, fields) {
                    Some((all, e)) => {
                        fields = all;
                        end = e;
                    },
                    None => {
                        return Reading::Failed;
                    },
                }
            },
            Reading::Empty => {},
            Reading::Failed => {
                return Reading::Failed;
            },
        }
        match self.lexer.character(end, '}') {
            Reading::Done(_, e) => {
                Reading::Done(Expr::Record(untyped_ident("".to_owned()), fields), e)
            },
            _ => Reading::Failed,
        }
    }

    fn atom(&self, p: usize) -> (res: Reading<Expr>)
        requires
            p <= self.lexer@.len(),
        ensures
            res.is_tree(atom_at(self.lexer@, p as int), self.lexer@, p as int),
    {
        proof {
            reveal_strlit("True");
            reveal_strlit("False");
        }
        if let Some((n, e)) = self.lexer.integer(p) {
            return Reading::Done(Expr::Literal(LiteralStruct::Integer(n)), e);
        }
        if let Reading::Done(text, e) = self.lexer.float(p) {
            return Reading::Done(Expr::Literal(LiteralStruct::Float(text)), e);
        }
        match self.lexer.reserved(p, "True") {
            Reading::Done(_, e) => {
                return Reading::Done(Expr::Literal(LiteralStruct::Bool(true)), e);
            },
            Reading::Failed => {
                return Reading::Failed;
            },
            Reading::Empty => {},
        }
        match self.lexer.reserved(p, "False") {
            Reading::Done(_, e) => {
                return Reading::Done(Expr::Literal(LiteralStruct::Bool(false)), e);
            },
            Reading::Failed => {
                return Reading::Failed;
            },
            Reading::Empty => {},
        }
        match self.lexer.ident(p) {
            Reading::Done(name, e) => Reading::Done(Expr::Identifier(untyped_ident(name)), e),
            Reading::Empty => Reading::Empty,
            Reading::Failed => Reading::Failed,
        }
    }

    #[verifier::rlimit(40)]
    fn simple(&self, p: usize) -> (res: Reading<Expr>)
        requires
            self.fits(),
            p <= self.lexer@.len(),
        ensures
            res.is_tree(simple_at(self.lexer@, self.typed, p as int), self.lexer@, p as int),
        decreases self.lexer@.len() - p, 2nat,
    {
        match self.if_else(p) {
            Reading::Empty => {},
            other => {
                return other;
            },
        }
        match self.let_in(p) {
            Reading::Empty => {},
            other => {
                return other;
            },
        }
        match self.lambda(p) {
            Reading::Empty => {},
            other => {
                return other;
            },
        }
        match self.type_decl(p) {
            Reading::Empty => {},
            other => {
                return other;
            },
        }
        match self.atom(p) {
            Reading::Empty => {},
            other => {
                return other;
            },
        }
        self.record(p)
    }

    #[verifier::rlimit(40)]
    fn enclosed(&self, p: usize) -> (res: Reading<LExpr>)
        requires
            self.fits(),
            p <= self.lexer@.len(),
        ensures
            res.is_node(enclosed_at(self.lexer@, self.typed, p as int), self.lexer@, p as int),
        decreases self.lexer@.len() - p, 1nat,
    {
        match self.lexer.character(p, '(') {
            Reading::Done(_, q) => {
                let (expr, end) = match self.expr(q) {
                    Reading::Done(expr, e) => (expr, e),
                    Reading::Empty => {
                        let exprs: Vec<LExpr> = Vec::new();
                        assert(nodes(exprs@) =~= Seq::<Node>::empty());
                        (LExpr { location: self.location(p), value: Expr::Block(exprs) }, q)
                    },
                    Reading::Failed => {
                        return Reading::Failed;
                    },
                };
                match self.lexer.character(end, ')') {
                    Reading::Done(_, e) => Reading::Done(expr, e),
                    _ => Reading::Failed,
                }
            },
            Reading::Empty => Reading::Empty,
            Reading::Failed => Reading::Failed,
        }
    }

    fn accesses(&self, start: usize, first: LExpr, location: Location, Ghost(p): Ghost<int>) -> (res:
        Reading<LExpr>)
        requires
            p < start <= self.lexer@.len(),
        ensures
            res.is_node(
                accesses_at(self.lexer@, start as int, node(first), location),
                self.lexer@,
                p,
            ),
    {
        let mut expr = first;
        let mut q: usize = start;
        loop
            invariant
                start <= q <= self.lexer@.len(),
                p < start,
                accesses_at(self.lexer@, start as int, node(first), location) == accesses_at(
                    self.lexer@,
                    q as int,
                    node(expr),
                    location,
                ),
            decreases self.lexer@.len() - q,
        {
            match self.lexer.character(q, '.') {
                Reading::Done(_, r) => match self.lexer.ident(r) {
                    Reading::Done(name, e) => {
                        expr =
                        LExpr {
                            location,
                            value: Expr::FieldAccess(Box::new(expr), untyped_ident(name)),
                        };
                        q = e;
                    },
                    _ => {
                        return Reading::Failed;
                    },
                },
                Reading::Empty => {
                    return Reading::Done(expr, q);
                },
                Reading::Failed => {
                    return Reading::Failed;
                },
            }
        }
    }

    #[verifier::rlimit(40)]
    fn arg(&self, p: usize) -> (res: Reading<LExpr>)
        requires
            self.fits(),
            p <= self.lexer@.len(),
        ensures
            res.is_node(arg_at(self.lexer@, self.typed, p as int), self.lexer@, p as int),
        decreases self.lexer@.len() - p, 3nat,
    {
        let location = self.location(p);
        let (first, start) = match self.simple(p) {
            Reading::Done(value, q) => (LExpr { location, value }, q),
            Reading::Failed => {
                return Reading::Failed;
            },
            Reading::Empty => match self.enclosed(p) {
                Reading::Done(expr, q) => (expr, q),
                other => {
                    return other;
                },
            },
        };
        self.accesses(start, first, location, Ghost(p as int))
    }

    #[verifier::rlimit(40)]
    fn args(&self, p: usize, args: Vec<LExpr>) -> (res: Option<(Vec<LExpr>, usize)>)
        requires
            self.fits(),
            p <= self.lexer@.len(),
        ensures
            match res {
                Some((all, q)) => args_at(self.lexer@, self.typed, p as int, nodes(args@))
                    == Read::Done(nodes(all@), q as int) && p <= q <= self.lexer@.len(),
                None => args_at(self.lexer@, self.typed, p as int, nodes(args@)) is Failed,
            },
        decreases self.lexer@.len() - p, 4nat,
    {
        match self.arg(p) {
            Reading::Done(arg, q) => {
                let ghost before = args@;
                let mut args = args;
                args.push(arg);
                assert(nodes(args@) =~= nodes(before).push(node(arg)));
                self.args(q, args)
            },
            Reading::Empty => Some((args, p)),
            Reading::Failed => None,
        }
    }

    #[verifier::rlimit(40)]
    fn call(&self, p: usize) -> (res: Reading<LExpr>)
        requires
            self.fits(),
            p <= self.lexer@.len(),
        ensures
            res.is_node(call_at(self.lexer@, self.typed, p as int), self.lexer@, p as int),
        decreases self.lexer@.len() - p, 4nat,
    {
        match self.arg(p) {
            Reading::Done(f, q) => {
                let none: Vec<LExpr> = Vec::new();
                assert(nodes(none@) =~= Seq::<Node>::empty());
                match self.args(q, none) {
                    Some((args, e)) => {
                        assert(nodes(args@).len() == args@.len());
                        if args.len() > 0 {
                            Reading::Done(
                                LExpr {
                                    location: f.location,
                                    value: Expr::Call(Box::new(f), args),
                                },
                                e,
                            )
                        } else {
                            Reading::Done(f, e)
                        }
                    },
                    None => Reading::Failed,
                }
            },
            Reading::Empty => Reading::Empty,
            Reading::Failed => Reading::Failed,
        }
    }

    #[verifier::rlimit(40)]
    fn operations(&self, p: usize, l: LExpr) -> (res: Option<(LExpr, usize)>)
        requires
            self.fits(),
            p <= self.lexer@.len(),
        ensures
            match res {
                Some((expr, q)) => operations_at(self.lexer@, self.typed, p as int, node(l))
                    == Read::Done(node(expr), q as int) && p <= q <= self.lexer@.len(),
                None => operations_at(self.lexer@, self.typed, p as int, node(l)) is Failed,
            },
        decreases self.lexer@.len() - p, 5nat,
    {
        match self.lexer.infix(p) {
            Reading::Done(op, q) => match self.call(q) {
                Reading::Done(r, e) => {
                    let location = l.location;
                    self.operations(
                        e,
                        LExpr {
                            location,
                            value: Expr::BinOp(Box::new(l), untyped_ident(op), Box::new(r)),
                        },
                    )
                },
                _ => None,
            },
            Reading::Empty => Some((l, p)),
            Reading::Failed => None,
        }
    }

    #[verifier::rlimit(40)]
    fn expr(&self, p: usize) -> (res: Reading<LExpr>)
        requires
            self.fits(),
            p <= self.lexer@.len(),
        ensures
            res.is_node(expr_at(self.lexer@, self.typed, p as int), self.lexer@, p as int),
        decreases self.lexer@.len() - p, 5nat,
    {
        match self.call(p) {
            Reading::Done(l, q) => match self.operations(q, l) {
                Some((expr, e)) => Reading::Done(expr, e),
                None => Reading::Failed,
            },
            Reading::Empty => Reading::Empty,
            Reading::Failed => Reading::Failed,
        }
    }
}

/// Why `t` does not begin with an expression.
pub open spec fn refused(t: Seq<char>, typed: bool) -> Option<ParseError> {
    match blank_end(t, 0, Blank::Space) {
        None => Some(ParseError::OpenComment),
        Some(p) => match expr_at(t, typed, p) {
            Read::Done(..) => None,
            Read::Empty => Some(ParseError::NoExpression(p as usize)),
            Read::Failed => Some(ParseError::Unfinished(p as usize)),
        },
    }
}

/// Reads the expression that `input` begins with.
fn parse_module(input: &str, typed: bool) -> (res: Result<LExpr, ParseError>)
    requires
        input@.len() < i32::MAX,
    ensures
        match res {
            Ok(expr) => parsed(input@, typed) == Some(node(expr)),
            Err(error) => parsed(input@, typed) is None && refused(input@, typed) == Some(error),
        },
{
    let parser = Parser { lexer: Lexer::new(input), typed };
    match parser.lexer.white_space(0) {
        Some(q) => match parser.expr(q) {
            Reading::Done(expr, _) => Ok(expr),
            Reading::Empty => Err(ParseError::NoExpression(q)),
            Reading::Failed => Err(ParseError::Unfinished(q)),
        },
        None => Err(ParseError::OpenComment),
    }
}

/// Reads the expression that `input` begins with. Bindings have the types that are given for them.
pub fn parse_tc(input: &str) -> (res: Result<LExpr, ParseError>)
    requires
        input@.len() < i32::MAX,
    ensures
        match res {
            Ok(expr) => parsed(input@, true) == Some(node(expr)),
            Err(error) => parsed(input@, true) is None && refused(input@, true) == Some(error),
        },
{
    parse_module(input, true)
}

/// Reads the expression that `input` begins with. The types that are given for bindings are left out.
pub fn parse_str(input: &str) -> (res: Result<LExpr, ParseError>)
    requires
        input@.len() < i32::MAX,
    ensures
        match res {
            Ok(expr) => parsed(input@, false) == Some(node(expr)),
            Err(error) => parsed(input@, false) is None && refused(input@, false) == Some(error),
        },
{
    parse_module(input, false)
}

} // verus!
