//! What sorts of types occur in a type, as a set of bits.

use vstd::prelude::*;
use crate::types::model::{FieldTy, Ty};
use crate::types::Type;

verus! {

pub const HAS_VARIABLES: u8 = 1;

pub const HAS_SKOLEMS: u8 = 2;

pub const HAS_GENERICS: u8 = 4;

pub const HAS_FORALL: u8 = 8;

pub const HAS_IDENTS: u8 = 16;

/// Variables and skolems, the types that generalization replaces.
pub const NEEDS_GENERALIZE: u8 = 3;

/// A set of sorts of types.
#[derive(Copy, Clone, Eq, PartialEq, Structural, Debug, Hash)]
pub struct Flags {
    bits: u8,
}

/// Whether a sort of type in `mask` occurs in `typ`.
pub open spec fn has_flag(typ: Ty, mask: u8) -> bool
    decreases typ,
{
    match typ {
        Ty::Function(_, arg, ret) => has_flag(*arg, mask) || has_flag(*ret, mask),
        Ty::App(f, args) => has_flag(*f, mask) || any_has_flag(args, mask),
        Ty::Record(row) | Ty::Variant(row) | Ty::Effect(row) => (mask & HAS_FORALL) != 0
            || has_flag(*row, mask),
        Ty::Forall(_, inner) => (mask & HAS_FORALL) != 0 || has_flag(*inner, mask),
        Ty::Skolem(_) => (mask & HAS_SKOLEMS) != 0,
        Ty::ExtendRow(fields, rest) => has_flag(*rest, mask) || any_field_has_flag(fields, mask),
        Ty::ExtendTypeRow(_, rest) => has_flag(*rest, mask),
        Ty::Variable(_) => (mask & HAS_VARIABLES) != 0,
        Ty::Generic(_) => (mask & HAS_GENERICS) != 0,
        Ty::Ident(_) => (mask & HAS_IDENTS) != 0,
        _ => false,
    }
}

/// Whether a sort of type in `mask` occurs in one of `types`.
pub open spec fn any_has_flag(types: Seq<Ty>, mask: u8) -> bool
    decreases types,
{
    exists|i: int| 0 <= i < types.len() && has_flag(#[trigger] types[i], mask)
}

/// Whether a sort of type in `mask` occurs in one of `fields`.
pub open spec fn any_field_has_flag(fields: Seq<FieldTy>, mask: u8) -> bool
    decreases fields,
{
    exists|i: int| 0 <= i < fields.len() && has_flag((#[trigger] fields[i]).typ, mask)
}

proof fn union_bits(a: u8, b: u8)
    ensures
        forall|mask: u8| #[trigger] ((a | b) & mask) != 0 <==> (a & mask) != 0 || (b & mask) != 0,
{
    assert forall|mask: u8|
        #[trigger] ((a | b) & mask) != 0 <==> (a & mask) != 0 || (b & mask) != 0 by {
        assert(((a | b) & mask) != 0 <==> (a & mask) != 0 || (b & mask) != 0) by (bit_vector);
    }
}

proof fn mask_bits(a: u8)
    ensures
        forall|mask: u8| #[trigger] (a & mask) == (mask & a),
        forall|mask: u8| #[trigger] (0u8 & mask) == 0,
{
    assert forall|mask: u8| #[trigger] (a & mask) == (mask & a) by {
        assert((a & mask) == (mask & a)) by (bit_vector);
    }
    assert forall|mask: u8| #[trigger] (0u8 & mask) == 0 by {
        assert((0u8 & mask) == 0) by (bit_vector);
    }
}

impl Flags {
    pub closed spec fn bits(self) -> u8 {
        self.bits
    }

    /// The set whose bits are `bits`.
    pub fn from_bits(bits: u8) -> (res: Flags)
        ensures
            res.bits() == bits,
    {
        Flags { bits }
    }

    /// The set without any sort.
    pub fn empty() -> (res: Flags)
        ensures
            res.bits() == 0,
    {
        Flags { bits: 0 }
    }

    /// Whether the sets have a sort in common.
    pub fn intersects(self, other: Flags) -> (res: bool)
        ensures
            res == ((self.bits() & other.bits()) != 0),
    {
        (self.bits & other.bits) != 0
    }

    /// Whether the set has a sort of `mask`.
    pub fn has(self, mask: u8) -> (res: bool)
        ensures
            res == ((self.bits() & mask) != 0),
    {
        (self.bits & mask) != 0
    }

    /// The sorts of either set.
    pub fn union(self, other: Flags) -> (res: Flags)
        ensures
            res.bits() == self.bits() | other.bits(),
    {
        Flags { bits: self.bits | other.bits }
    }

    /// The sorts of types that occur in `typ`.
    #[verifier::rlimit(30)]
    pub fn from_type(typ: &Type) -> (res: Flags)
        ensures
            forall|mask: u8| #[trigger]
                (res.bits() & mask) != 0 <==> has_flag(crate::types::type_view(*typ), mask),
    {
        proof {
            mask_bits(HAS_FORALL);
            mask_bits(HAS_SKOLEMS);
            mask_bits(HAS_VARIABLES);
            mask_bits(HAS_GENERICS);
            mask_bits(HAS_IDENTS);
        }
        let ghost view = crate::types::type_view(*typ);
        match typ {
            Type::Function(_, arg, ret) => {
                let (a, b) = (arg.flags(), ret.flags());
                proof {
                    union_bits(a.bits(), b.bits());
                }
                a.union(b)
            },
            Type::App(f, args) => {
                let mut flags = f.flags();
                let mut i: usize = 0;
                while i < args.len()
                    invariant
                        i <= args.len(),
                        forall|mask: u8| #[trigger]
                            (flags.bits() & mask) != 0 <==> (has_flag(f@, mask) || exists|j: int|
                                0 <= j < i && has_flag((#[trigger] args@[j])@, mask)),
                    decreases args.len() - i,
                {
                    let more = args[i].flags();
                    proof {
                        union_bits(flags.bits(), more.bits());
                    }
                    flags = flags.union(more);
                    i += 1;
                }
                proof {
                    let tys = crate::types::types_view(args@);
                    assert forall|mask: u8| #[trigger]
                        (flags.bits() & mask) != 0 <==> has_flag(view, mask) by {
                        assert(forall|j: int| 0 <= j < tys.len() ==> #[trigger] tys[j] == args@[j]@);
                        if any_has_flag(tys, mask) {
                            let j = choose|j: int|
                                0 <= j < tys.len() && has_flag(#[trigger] tys[j], mask);
                            assert(has_flag(args@[j]@, mask));
                        }
                        if exists|j: int|
                            0 <= j < args@.len() && has_flag((#[trigger] args@[j])@, mask) {
                            let j = choose|j: int|
                                0 <= j < args@.len() && has_flag((#[trigger] args@[j])@, mask);
                            assert(has_flag(tys[j], mask));
                        }
                    }
                }
                flags
            },
            Type::Record(inner) | Type::Variant(inner) | Type::Effect(inner) | Type::Forall(
                _,
                inner,
            ) => {
                let flags = inner.flags();
                proof {
                    union_bits(HAS_FORALL, flags.bits());
                }
                Flags { bits: HAS_FORALL }.union(flags)
            },
            Type::ExtendRow { fields, rest } => {
                let mut flags = rest.flags();
                let mut i: usize = 0;
                while i < fields.len()
                    invariant
                        i <= fields.len(),
                        forall|mask: u8| #[trigger]
                            (flags.bits() & mask) != 0 <==> (has_flag(rest@, mask) || exists|j: int|
                                0 <= j < i && has_flag((#[trigger] fields@[j]).typ@, mask)),
                    decreases fields.len() - i,
                {
                    let more = fields[i].typ.flags();
                    proof {
                        union_bits(flags.bits(), more.bits());
                    }
                    flags = flags.union(more);
                    i += 1;
                }
                proof {
                    let tys = crate::types::fields_view(fields@);
                    assert forall|mask: u8| #[trigger]
                        (flags.bits() & mask) != 0 <==> has_flag(view, mask) by {
                        assert(forall|j: int|
                            0 <= j < tys.len() ==> (#[trigger] tys[j]).typ == fields@[j].typ@);
                        if any_field_has_flag(tys, mask) {
                            let j = choose|j: int|
                                0 <= j < tys.len() && has_flag((#[trigger] tys[j]).typ, mask);
                            assert(has_flag(fields@[j].typ@, mask));
                        }
                        if exists|j: int|
                            0 <= j < fields@.len() && has_flag((#[trigger] fields@[j]).typ@, mask) {
                            let j = choose|j: int|
                                0 <= j < fields@.len() && has_flag((#[trigger] fields@[j]).typ@, mask);
                            assert(has_flag(tys[j].typ, mask));
                        }
                    }
                }
                flags
            },
            Type::ExtendTypeRow { types: _, rest } => rest.flags(),
            Type::Skolem(_) => Flags { bits: HAS_SKOLEMS },
            Type::Variable(_) => Flags { bits: HAS_VARIABLES },
            Type::Generic(_) => Flags { bits: HAS_GENERICS },
            Type::Ident(_) => Flags { bits: HAS_IDENTS },
            _ => Flags { bits: 0 },
        }
    }
}

} // verus!
