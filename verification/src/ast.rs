//! Syntax trees.

use vstd::prelude::*;
use crate::metadata::Comment;
use crate::pos::{Span, Spanned};
use crate::symbol::Symbol;
use crate::types::{AliasData, AliasRef, ArcType};

verus! {

/// An identifier with its type.
pub struct TypedIdent {
    pub name: Symbol,
    pub typ: ArcType,
}

pub type SpannedIdent = Spanned<TypedIdent>;

/// A type as it stands in source text, with the types that it is made of, in order: a row has those of
/// its fields and then its rest, and an associated type counts as the type that it stands for.
pub struct AstType {
    pub span: Span,
    /// The comment that documents it.
    pub comment: Option<Comment>,
    /// The other comments that stand before it, and those behind it. A line break is an empty one.
    pub before: Vec<String>,
    pub after: Vec<String>,
    pub typ: ArcType,
    pub parts: Vec<AstType>,
}

pub enum Literal {
    Byte(u8),
    Int(i64),
    /// A floating point number, by its bits.
    Float(u64),
    String(String),
    Char(char),
}

/// An associated type in a record pattern.
pub struct PatternTypeField {
    pub name: Spanned<Symbol>,
    pub value: Option<Symbol>,
}

/// A field in a record pattern. Without a value it binds its own name.
pub struct PatternField {
    pub name: Spanned<Symbol>,
    pub value: Option<SpannedPattern>,
}

pub type SpannedPattern = Spanned<Pattern>;

pub enum Pattern {
    /// A pattern that is also bound to a name: `x@pattern`
    As(Symbol, Box<SpannedPattern>),
    Constructor(TypedIdent, Vec<SpannedPattern>),
    Ident(TypedIdent),
    Record { typ: ArcType, types: Vec<PatternTypeField>, fields: Vec<PatternField> },
    Tuple { typ: ArcType, elems: Vec<SpannedPattern> },
    /// An invalid pattern
    Error,
}

pub struct Alternative {
    pub pattern: SpannedPattern,
    pub expr: SpannedExpr,
}

pub struct Lambda {
    pub id: TypedIdent,
    pub args: Vec<SpannedIdent>,
    pub body: Box<SpannedExpr>,
}

/// An associated type of a record.
pub struct ExprTypeField {
    pub name: Spanned<Symbol>,
}

/// A field of a record. Without a value it has the value that is bound to its name.
pub struct ExprField {
    pub name: Spanned<Symbol>,
    pub value: Option<SpannedExpr>,
}

pub struct Do {
    pub id: SpannedIdent,
    pub bound: Box<SpannedExpr>,
    pub body: Box<SpannedExpr>,
}

pub type SpannedExpr = Spanned<Expr>;

pub enum Expr {
    Ident(TypedIdent),
    Literal(Literal),
    /// Function application, can be applied to multiple arguments
    App(Box<SpannedExpr>, Vec<SpannedExpr>),
    /// Lambda abstraction, eg. `\\x y -> x * y`
    Lambda(Lambda),
    /// If-then-else conditional
    IfElse(Box<SpannedExpr>, Box<SpannedExpr>, Box<SpannedExpr>),
    /// Pattern match expression
    Match(Box<SpannedExpr>, Vec<Alternative>),
    /// Infix operator expression eg. `f >> g`
    Infix(Box<SpannedExpr>, SpannedIdent, Box<SpannedExpr>),
    /// Record field projection, eg. `value.field`
    Projection(Box<SpannedExpr>, Symbol, ArcType),
    /// Array construction
    Array(ArcType, Vec<SpannedExpr>),
    /// Record construction
    Record {
        typ: ArcType,
        types: Vec<ExprTypeField>,
        exprs: Vec<ExprField>,
        base: Option<Box<SpannedExpr>>,
    },
    /// Tuple construction
    Tuple { typ: ArcType, elems: Vec<SpannedExpr> },
    /// Declare a series of value bindings
    LetBindings(Vec<ValueBinding>, Box<SpannedExpr>),
    /// Declare a series of type aliases
    TypeBindings(Vec<TypeBinding>, Box<SpannedExpr>),
    /// A group of sequenced expressions
    Block(Vec<SpannedExpr>),
    Do(Do),
    /// An invalid expression
    Error,
}

pub struct TypeBinding {
    pub comment: Option<Comment>,
    pub name: Spanned<Symbol>,
    pub alias: Spanned<AliasData>,
    /// The aliased type as it stands in the source.
    pub aliased_type: AstType,
    /// The alias after its names have been resolved.
    pub finalized_alias: Option<AliasRef>,
}

pub struct ValueBinding {
    pub comment: Option<Comment>,
    pub name: SpannedPattern,
    pub typ: Option<AstType>,
    pub args: Vec<SpannedIdent>,
    pub expr: SpannedExpr,
}

} // verus!
