//! When two types are the same.

use vstd::prelude::*;
use crate::symbol::Symbol;
use crate::types::model::{parts_decrease, same_fields, same_type, same_types, FieldTy};
use crate::types::{
    fields_view, generics_view, symbols_view, type_fields_view, types_view, ArcType, Field,
    Generic, Type, TypeField,
};

verus! {

/// Whether `l` and `r` are the same parameters.
pub fn same_generics(l: &Vec<Generic>, r: &Vec<Generic>) -> (res: bool)
    ensures
        res == (generics_view(l@) == generics_view(r@)),
{
    if l.len() != r.len() {
        assert(generics_view(l@).len() != generics_view(r@).len());
        return false;
    }
    let mut i: usize = 0;
    while i < l.len()
        invariant
            i <= l@.len(),
            l@.len() == r@.len(),
            forall|j: int| 0 <= j < i ==> (#[trigger] l@[j])@ == r@[j]@,
        decreases l@.len() - i,
    {
        if !l[i].same(&r[i]) {
            assert(generics_view(l@)[i as int] != generics_view(r@)[i as int]);
            return false;
        }
        i += 1;
    }
    assert(generics_view(l@) =~= generics_view(r@));
    true
}

/// Whether `l` and `r` are the same symbols.
pub fn same_symbols(l: &Vec<Symbol>, r: &Vec<Symbol>) -> (res: bool)
    ensures
        res == (symbols_view(l@) == symbols_view(r@)),
{
    if l.len() != r.len() {
        assert(symbols_view(l@).len() != symbols_view(r@).len());
        return false;
    }
    let mut i: usize = 0;
    while i < l.len()
        invariant
            i <= l@.len(),
            l@.len() == r@.len(),
            forall|j: int| 0 <= j < i ==> (#[trigger] l@[j])@ == r@[j]@,
        decreases l@.len() - i,
    {
        if l[i] != r[i] {
            assert(symbols_view(l@)[i as int] != symbols_view(r@)[i as int]);
            return false;
        }
        i += 1;
    }
    assert(symbols_view(l@) =~= symbols_view(r@));
    true
}

fn same_vec(l: &Vec<ArcType>, r: &Vec<ArcType>) -> (res: bool)
    ensures
        res == same_types(types_view(l@), types_view(r@)),
    decreases types_view(l@), 0nat,
{
    if l.len() != r.len() {
        return false;
    }
    let mut i: usize = 0;
    while i < l.len()
        invariant
            i <= l@.len(),
            l@.len() == r@.len(),
            forall|j: int|
                0 <= j < i ==> same_type(#[trigger] types_view(l@)[j], types_view(r@)[j]),
        decreases l@.len() - i,
    {
        assert(types_view(l@)[i as int] == l@[i as int]@);
        assert(types_view(r@)[i as int] == r@[i as int]@);
        if !l[i].same(&r[i]) {
            return false;
        }
        i += 1;
    }
    true
}

fn same_field_vec(l: &Vec<Field>, r: &Vec<Field>) -> (res: bool)
    ensures
        res == same_fields(fields_view(l@), fields_view(r@)),
    decreases fields_view(l@), 0nat,
{
    if l.len() != r.len() {
        return false;
    }
    let ghost (ls, rs) = (fields_view(l@), fields_view(r@));
    let mut i: usize = 0;
    while i < l.len()
        invariant
            i <= l@.len(),
            l@.len() == r@.len(),
            ls == fields_view(l@),
            rs == fields_view(r@),
            forall|j: int|
                0 <= j < i ==> ls[j].name == rs[j].name && same_type(
                    (#[trigger] ls[j]).typ,
                    rs[j].typ,
                ),
        decreases l@.len() - i,
    {
        assert(ls[i as int] == (FieldTy { name: l@[i as int].name@, typ: l@[i as int].typ@ }));
        assert(rs[i as int] == (FieldTy { name: r@[i as int].name@, typ: r@[i as int].typ@ }));
        if !(l[i].name == r[i].name && l[i].typ.same(&r[i].typ)) {
            return false;
        }
        i += 1;
    }
    true
}

pub(crate) fn same_type_field_vec(l: &Vec<TypeField>, r: &Vec<TypeField>) -> (res: bool)
    ensures
        res == same_fields(type_fields_view(l@), type_fields_view(r@)),
    decreases type_fields_view(l@), 0nat,
{
    if l.len() != r.len() {
        return false;
    }
    let ghost (ls, rs) = (type_fields_view(l@), type_fields_view(r@));
    let mut i: usize = 0;
    while i < l.len()
        invariant
            i <= l@.len(),
            l@.len() == r@.len(),
            ls == type_fields_view(l@),
            rs == type_fields_view(r@),
            forall|j: int|
                0 <= j < i ==> ls[j].name == rs[j].name && same_type(
                    (#[trigger] ls[j]).typ,
                    rs[j].typ,
                ),
        decreases l@.len() - i,
    {
        assert(ls[i as int] == (FieldTy { name: l@[i as int].name@, typ: l@[i as int].typ@ }));
        assert(rs[i as int] == (FieldTy { name: r@[i as int].name@, typ: r@[i as int].typ@ }));
        if !(l[i].name == r[i].name && l[i].typ.as_type().same(r[i].typ.as_type())) {
            return false;
        }
        i += 1;
    }
    true
}

impl TypeField {
    /// Whether `self` and `other` have the same name and the same alias.
    pub fn same(&self, other: &TypeField) -> (res: bool)
        ensures
            res == (self.name@ == other.name@ && same_type(self.typ@, other.typ@)),
    {
        self.name == other.name && self.typ.as_type().same(other.typ.as_type())
    }
}

impl ArcType {
    /// Whether `self` and `other` are the same type.
    pub fn same(&self, other: &ArcType) -> (res: bool)
        ensures
            res == same_type(self@, other@),
        decreases self@, 1nat,
    {
        let (l, r) = (self.as_type(), other.as_type());
        proof {
            parts_decrease(self@);
        }
        match (l, r) {
            (Type::Hole, Type::Hole) => true,
            (Type::Opaque, Type::Opaque) => true,
            (Type::Error, Type::Error) => true,
            (Type::EmptyRow, Type::EmptyRow) => true,
            (Type::Builtin(l), Type::Builtin(r)) => *l == *r,
            (Type::Forall(lp, l), Type::Forall(rp, r)) => same_generics(lp, rp) && l.same(r),
            (Type::App(l, la), Type::App(r, ra)) => l.same(r) && same_vec(la, ra),
            (Type::Function(lt, la, lr), Type::Function(rt, ra, rr)) => *lt == *rt && la.same(ra)
                && lr.same(rr),
            (Type::Record(l), Type::Record(r)) => l.same(r),
            (Type::Variant(l), Type::Variant(r)) => l.same(r),
            (Type::Effect(l), Type::Effect(r)) => l.same(r),
            (Type::ExtendRow { fields: lf, rest: l }, Type::ExtendRow { fields: rf, rest: r }) => l.same(
                r,
            ) && same_field_vec(lf, rf),
            (
                Type::ExtendTypeRow { types: lf, rest: l },
                Type::ExtendTypeRow { types: rf, rest: r },
            ) => l.same(r) && same_type_field_vec(lf, rf),
            (Type::Ident(l), Type::Ident(r)) => *l == *r,
            (Type::Projection(l), Type::Projection(r)) => same_symbols(l, r),
            (Type::Variable(l), Type::Variable(r)) => *l == *r,
            (Type::Generic(l), Type::Generic(r)) => l.same(r),
            (Type::Alias(l), Type::Alias(r)) => {
                let (x, y) = (l.data(), r.data());
                x.name == y.name && same_generics(x.params(), y.params())
                    && x.unresolved_type().same(y.unresolved_type()) && x.is_implicit()
                    == y.is_implicit()
            },
            (Type::Skolem(l), Type::Skolem(r)) => l.id == r.id,
            _ => false,
        }
    }
}

} // verus!
