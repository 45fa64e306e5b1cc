//! Kinds, the types of types.

use std::sync::Arc;
use vstd::prelude::*;

verus! {

/// The kind of a type.
#[derive(Debug)]
pub enum Kind {
    /// A kind that is still to be filled in.
    Hole,
    /// The kind of a type that is in error.
    Error,
    /// A kind variable.
    Variable(u32),
    /// The kind of types that have values.
    Type,
    /// The kind of rows.
    Row,
    /// The kind of type constructors.
    Function(ArcKind, ArcKind),
}

/// A shared kind.
pub type ArcKind = Arc<Kind>;

impl Kind {
    pub fn hole() -> (res: ArcKind)
        ensures
            *res == Kind::Hole,
    {
        Arc::new(Kind::Hole)
    }

    pub fn error() -> (res: ArcKind)
        ensures
            *res == Kind::Error,
    {
        Arc::new(Kind::Error)
    }

    pub fn variable(id: u32) -> (res: ArcKind)
        ensures
            *res == Kind::Variable(id),
    {
        Arc::new(Kind::Variable(id))
    }

    pub fn typ() -> (res: ArcKind)
        ensures
            *res == Kind::Type,
    {
        Arc::new(Kind::Type)
    }

    pub fn row() -> (res: ArcKind)
        ensures
            *res == Kind::Row,
    {
        Arc::new(Kind::Row)
    }

    /// The kind of a constructor from `arg` to `ret`.
    pub fn function(arg: ArcKind, ret: ArcKind) -> (res: ArcKind)
        ensures
            *res == Kind::Function(arg, ret),
    {
        Arc::new(Kind::Function(arg, ret))
    }

    /// Whether `self` and `other` are the same kind.
    pub fn same(&self, other: &Kind) -> (res: bool)
        ensures
            res == (*self == *other),
        decreases self,
    {
        match (self, other) {
            (Kind::Hole, Kind::Hole) => true,
            (Kind::Error, Kind::Error) => true,
            (Kind::Variable(l), Kind::Variable(r)) => *l == *r,
            (Kind::Type, Kind::Type) => true,
            (Kind::Row, Kind::Row) => true,
            (Kind::Function(la, lr), Kind::Function(ra, rr)) => la.same(ra) && lr.same(rr),
            _ => false,
        }
    }
}

/// The result kind of `kind` applied to `args` arguments. The application stops early at a kind
/// that takes no argument.
pub open spec fn applied_kind(kind: Kind, args: nat) -> Kind
    decreases args,
{
    if args == 0 {
        kind
    } else {
        match kind {
            Kind::Function(_, ret) => applied_kind(*ret, (args - 1) as nat),
            _ => kind,
        }
    }
}

/// The result kind of `kind` applied to `args` arguments.
pub fn apply_kind(kind: ArcKind, args: usize) -> (res: ArcKind)
    ensures
        *res == applied_kind(*kind, args as nat),
{
    let mut current = kind;
    let mut left: usize = args;
    while left > 0
        invariant
            left <= args,
            applied_kind(*current, left as nat) == applied_kind(*kind, args as nat),
        decreases left,
    {
        let next = match &*current {
            Kind::Function(_, ret) => ret.clone(),
            _ => {
                return current;
            },
        };
        current = next;
        left -= 1;
    }
    current
}

/// Shared instances of the common kinds.
pub struct KindCache {
    pub typ: ArcKind,
    pub row: ArcKind,
    pub hole: ArcKind,
    pub error: ArcKind,
}

impl KindCache {
    pub open spec fn wf(&self) -> bool {
        &&& *self.typ == Kind::Type
        &&& *self.row == Kind::Row
        &&& *self.hole == Kind::Hole
        &&& *self.error == Kind::Error
    }

    pub fn new() -> (res: KindCache)
        ensures
            res.wf(),
    {
        KindCache { typ: Kind::typ(), row: Kind::row(), hole: Kind::hole(), error: Kind::error() }
    }
}

} // verus!
