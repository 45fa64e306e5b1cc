//! The mathematical model of types: what a type is, apart from how it is shared and stored.

use vstd::prelude::*;
use crate::kind::ArcKind;
use crate::types::{ArgType, BuiltinType, TypeVariable};

verus! {

/// What a type is.
pub enum Ty {
    Hole,
    Opaque,
    Error,
    Builtin(BuiltinType),
    Forall(Seq<GenericTy>, Box<Ty>),
    App(Box<Ty>, Seq<Ty>),
    Function(ArgType, Box<Ty>, Box<Ty>),
    Record(Box<Ty>),
    Variant(Box<Ty>),
    Effect(Box<Ty>),
    EmptyRow,
    ExtendRow(Seq<FieldTy>, Box<Ty>),
    ExtendTypeRow(Seq<FieldTy>, Box<Ty>),
    Ident(Seq<char>),
    Projection(Seq<Seq<char>>),
    Variable(TypeVariable),
    Generic(GenericTy),
    Alias(AliasTy),
    Skolem(SkolemTy),
}

/// A type parameter.
pub struct GenericTy {
    pub id: Seq<char>,
    pub kind: ArcKind,
}

/// A type constant that stands for a parameter inside its scope.
pub struct SkolemTy {
    pub name: Seq<char>,
    pub id: u32,
    pub kind: ArcKind,
}

/// A field of a row. In a type row `typ` is an alias.
pub struct FieldTy {
    pub name: Seq<char>,
    pub typ: Ty,
}

/// One alias out of a group of aliases that may refer to each other.
pub struct AliasTy {
    pub index: int,
    pub group: Seq<AliasDataTy>,
}

/// The definition of an alias.
pub struct AliasDataTy {
    pub name: Seq<char>,
    pub params: Seq<GenericTy>,
    pub typ: Ty,
    pub is_implicit: bool,
}

impl AliasTy {
    /// The definition that the alias refers to.
    pub open spec fn data(self) -> AliasDataTy {
        self.group[self.index]
    }
}

/// The parts of a type are smaller than the type.
pub proof fn parts_decrease(t: Ty)
    ensures
        match t {
            Ty::Forall(_, x) => decreases_to!(t => *x),
            Ty::App(x, a) => decreases_to!(t => *x) && decreases_to!(t => a),
            Ty::Function(_, a, x) => decreases_to!(t => *a) && decreases_to!(t => *x),
            Ty::Record(x) => decreases_to!(t => *x),
            Ty::Variant(x) => decreases_to!(t => *x),
            Ty::Effect(x) => decreases_to!(t => *x),
            Ty::ExtendRow(a, x) => decreases_to!(t => *x) && decreases_to!(t => a),
            Ty::ExtendTypeRow(a, x) => decreases_to!(t => *x) && decreases_to!(t => a),
            Ty::Alias(a) => decreases_to!(t => a.group) && (0 <= a.index < a.group.len()
                ==> decreases_to!(t => a.group[a.index].typ)),
            _ => true,
        },
{
}

/// Whether `l` and `r` are the same type. Variables and skolems are the same when their ids are,
/// aliases when their definitions are.
pub open spec fn same_type(l: Ty, r: Ty) -> bool
    decreases l,
{
    match (l, r) {
        (Ty::Builtin(a), Ty::Builtin(b)) => a == b,
        (Ty::Forall(a, x), Ty::Forall(b, y)) => a == b && same_type(*x, *y),
        (Ty::App(x, a), Ty::App(y, b)) => same_type(*x, *y) && same_types(a, b),
        (Ty::Function(s, a, x), Ty::Function(t, b, y)) => s == t && same_type(*a, *b) && same_type(
            *x,
            *y,
        ),
        (Ty::Record(x), Ty::Record(y)) => same_type(*x, *y),
        (Ty::Variant(x), Ty::Variant(y)) => same_type(*x, *y),
        (Ty::Effect(x), Ty::Effect(y)) => same_type(*x, *y),
        (Ty::ExtendRow(a, x), Ty::ExtendRow(b, y)) => same_type(*x, *y) && same_fields(a, b),
        (Ty::ExtendTypeRow(a, x), Ty::ExtendTypeRow(b, y)) => same_type(*x, *y) && same_fields(
            a,
            b,
        ),
        (Ty::Ident(a), Ty::Ident(b)) => a == b,
        (Ty::Projection(a), Ty::Projection(b)) => a == b,
        (Ty::Variable(a), Ty::Variable(b)) => a.id == b.id,
        (Ty::Generic(a), Ty::Generic(b)) => a == b,
        (Ty::Alias(a), Ty::Alias(b)) => {
            if 0 <= a.index < a.group.len() {
                let x = a.group[a.index];
                let y = b.data();
                x.name == y.name && x.params == y.params && same_type(x.typ, y.typ)
                    && x.is_implicit == y.is_implicit
            } else {
                false
            }
        },
        (Ty::Skolem(a), Ty::Skolem(b)) => a.id == b.id,
        (Ty::Hole, Ty::Hole) | (Ty::Opaque, Ty::Opaque) | (Ty::Error, Ty::Error) | (
            Ty::EmptyRow,
            Ty::EmptyRow,
        ) => true,
        _ => false,
    }
}

/// Whether the types in `l` and `r` are the same, one by one.
pub open spec fn same_types(l: Seq<Ty>, r: Seq<Ty>) -> bool
    decreases l,
{
    &&& l.len() == r.len()
    &&& forall|i: int| 0 <= i < l.len() ==> same_type(#[trigger] l[i], r[i])
}

/// Whether the fields in `l` and `r` are the same, one by one.
pub open spec fn same_fields(l: Seq<FieldTy>, r: Seq<FieldTy>) -> bool
    decreases l,
{
    &&& l.len() == r.len()
    &&& forall|i: int|
        0 <= i < l.len() ==> l[i].name == r[i].name && same_type((#[trigger] l[i]).typ, r[i].typ)
}

} // verus!
