//! The fields of rows, records and variants, and the arguments of functions.

use vstd::prelude::*;
use crate::types::model::{FieldTy, GenericTy, Ty};
use crate::types::{
    fields_view, generics_view, type_fields_view, ArcType, Field, Generic, Type, TypeField,
};

verus! {

/// The fields of `typ`, whether it is a record, a variant or a row.
pub open spec fn row_fields(typ: Ty) -> Seq<FieldTy>
    decreases typ,
{
    match typ {
        Ty::Record(row) => row_fields(*row),
        Ty::Variant(row) => row_fields(*row),
        Ty::ExtendRow(fields, rest) => fields + row_fields(*rest),
        Ty::ExtendTypeRow(_, rest) => row_fields(*rest),
        _ => Seq::empty(),
    }
}

/// What is left of `typ` behind its fields.
pub open spec fn row_rest(typ: Ty) -> Ty
    decreases typ,
{
    match typ {
        Ty::Record(row) => row_rest(*row),
        Ty::Variant(row) => row_rest(*row),
        Ty::ExtendRow(_, rest) => row_rest(*rest),
        Ty::ExtendTypeRow(_, rest) => row_rest(*rest),
        _ => typ,
    }
}

/// The associated types of `typ`, whether it is a record or a row.
pub open spec fn type_fields(typ: Ty) -> Seq<FieldTy>
    decreases typ,
{
    match typ {
        Ty::Record(row) => type_fields(*row),
        Ty::ExtendRow(_, rest) => type_fields(*rest),
        Ty::ExtendTypeRow(types, rest) => types + type_fields(*rest),
        _ => Seq::empty(),
    }
}

spec fn fields_from(typ: Ty, current: nat) -> Seq<FieldTy> {
    match typ {
        Ty::ExtendRow(fields, rest) => fields.skip(current as int) + row_fields(*rest),
        _ => row_fields(typ),
    }
}

proof fn fields_from_start(typ: Ty)
    ensures
        fields_from(typ, 0) == row_fields(typ),
{
    if let Ty::ExtendRow(fields, rest) = typ {
        assert(fields.skip(0) =~= fields);
    }
}

spec fn types_from(typ: Ty, current: nat) -> Seq<FieldTy> {
    match typ {
        Ty::ExtendTypeRow(types, rest) => types.skip(current as int) + type_fields(*rest),
        _ => type_fields(typ),
    }
}

proof fn types_from_start(typ: Ty)
    ensures
        types_from(typ, 0) == type_fields(typ),
{
    if let Ty::ExtendTypeRow(types, rest) = typ {
        assert(types.skip(0) =~= types);
    }
}

/// Walks through the fields of a type.
pub struct RowIterator<'a> {
    typ: &'a ArcType,
    current: usize,
}

/// Starts a walk through the fields of `typ`.
/// `{ Test, Test2, x, y } => [x, y]`
pub fn row_iter<'a>(typ: &'a ArcType) -> (res: RowIterator<'a>)
    ensures
        res.wf(),
        res@ == row_fields(typ@),
        res.rest() == row_rest(typ@),
        res.at() == typ@,
{
    let res = RowIterator { typ, current: 0 };
    proof {
        fields_from_start(typ@);
    }
    res
}

impl<'a> View for RowIterator<'a> {
    type V = Seq<FieldTy>;

    /// The fields that are still to come.
    closed spec fn view(&self) -> Seq<FieldTy> {
        fields_from(self.typ@, self.current as nat)
    }
}

impl<'a> RowIterator<'a> {
    pub closed spec fn wf(&self) -> bool {
        match self.typ@ {
            Ty::ExtendRow(fields, _) => self.current <= fields.len(),
            _ => self.current == 0,
        }
    }

    /// What is left of the type behind its fields.
    pub closed spec fn rest(&self) -> Ty {
        row_rest(self.typ@)
    }

    /// The type that the walk has arrived at.
    pub closed spec fn at(&self) -> Ty {
        self.typ@
    }

    /// The type that the walk has arrived at. Behind the last field it is the rest of the row.
    pub fn current_type(&self) -> (res: &'a ArcType)
        ensures
            res@ == self.at(),
    {
        self.typ
    }

    /// The next field.
    pub fn next(&mut self) -> (res: Option<&'a Field>)
        requires
            old(self).wf(),
        ensures
            final(self).wf(),
            final(self).rest() == old(self).rest(),
            match res {
                Some(field) => old(self)@.len() > 0 && final(self)@ == old(self)@.drop_first()
                    && old(self)@[0] == (FieldTy { name: field.name@, typ: field.typ@ }),
                None => old(self)@.len() == 0 && final(self)@.len() == 0 && final(self).at()
                    == final(self).rest(),
            },
        decreases old(self).at(),
    {
        let typ: &'a ArcType = self.typ;
        match typ.as_type() {
            Type::Record(row) | Type::Variant(row) => {
                self.typ = row;
                proof {
                    assert(old(self)@ =~= row_fields(row@));
                    fields_from_start(row@);
                }
                self.next()
            },
            Type::ExtendRow { fields, rest } => {
                let current: usize = self.current;
                if current < fields.len() {
                    self.current = current + 1;
                    proof {
                        let all = fields_view(fields@);
                        assert((all.skip(current as int) + row_fields(rest@)).drop_first()
                            =~= all.skip(current + 1) + row_fields(rest@));
                        assert((all.skip(current as int) + row_fields(rest@))[0]
                            == all[current as int]);
                        assert(self.typ@ == Ty::ExtendRow(all, Box::new(rest@)));
                    }
                    Some(&fields[current])
                } else {
                    self.current = 0;
                    self.typ = rest;
                    proof {
                        let all = fields_view(fields@);
                        assert(all.skip(current as int) + row_fields(rest@) =~= row_fields(rest@));
                        assert(old(self)@ =~= row_fields(rest@));
                    fields_from_start(rest@);
                    }
                    self.next()
                }
            },
            Type::ExtendTypeRow { types: _, rest } => {
                self.typ = rest;
                proof {

                    assert(old(self)@ =~= row_fields(rest@));
                    fields_from_start(rest@);
                }
                self.next()
            },
            _ => None,
        }
    }

    /// How many fields the type that the walk has arrived at has, those already passed in it
    /// included.
    pub fn len(&self) -> (res: usize)
        requires
            row_fields(self.at()).len() <= usize::MAX,
        ensures
            res == row_fields(self.at()).len(),
    {
        row_len(self.typ)
    }
}

fn row_len(typ: &ArcType) -> (res: usize)
    requires
        row_fields(typ@).len() <= usize::MAX,
    ensures
        res == row_fields(typ@).len(),
    decreases typ@,
{
    match typ.as_type() {
        Type::Record(row) | Type::Variant(row) => row_len(row),
        Type::ExtendRow { fields, rest } => {
            assert(fields_view(fields@).len() == fields@.len());
            let len: usize = row_len(rest);
            fields.len() + len
        },
        Type::ExtendTypeRow { types: _, rest } => row_len(rest),
        _ => 0,
    }
}

/// Walks through the associated types of a type.
pub struct TypeFieldIterator<'a> {
    typ: &'a ArcType,
    current: usize,
}

/// Starts a walk through the associated types of `typ`.
/// `{ Test, Test2, x, y } => [Test, Test2]`
pub fn type_field_iter<'a>(typ: &'a ArcType) -> (res: TypeFieldIterator<'a>)
    ensures
        res.wf(),
        res@ == type_fields(typ@),
        res.at() == typ@,
{
    let res = TypeFieldIterator { typ, current: 0 };
    proof {
        types_from_start(typ@);
    }
    res
}

impl<'a> View for TypeFieldIterator<'a> {
    type V = Seq<FieldTy>;

    /// The associated types that are still to come.
    closed spec fn view(&self) -> Seq<FieldTy> {
        types_from(self.typ@, self.current as nat)
    }
}

impl<'a> TypeFieldIterator<'a> {
    pub closed spec fn wf(&self) -> bool {
        match self.typ@ {
            Ty::ExtendTypeRow(types, _) => self.current <= types.len(),
            _ => self.current == 0,
        }
    }

    /// The type that the walk has arrived at.
    pub closed spec fn at(&self) -> Ty {
        self.typ@
    }

    /// The next associated type.
    pub fn next(&mut self) -> (res: Option<&'a TypeField>)
        requires
            old(self).wf(),
        ensures
            final(self).wf(),
            match res {
                Some(field) => old(self)@.len() > 0 && final(self)@ == old(self)@.drop_first()
                    && old(self)@[0] == (FieldTy { name: field.name@, typ: field.typ@ }),
                None => old(self)@.len() == 0 && final(self)@.len() == 0,
            },
        decreases old(self).at(),
    {
        let typ: &'a ArcType = self.typ;
        match typ.as_type() {
            Type::ExtendRow { fields: _, rest } | Type::Record(rest) => {
                self.typ = rest;
                proof {
                    assert(old(self)@ =~= type_fields(rest@));
                    types_from_start(rest@);
                }
                self.next()
            },
            Type::ExtendTypeRow { types, rest } => {
                let current: usize = self.current;
                if current < types.len() {
                    self.current = current + 1;
                    proof {
                        let all = type_fields_view(types@);
                        assert((all.skip(current as int) + type_fields(rest@)).drop_first()
                            =~= all.skip(current + 1) + type_fields(rest@));
                        assert((all.skip(current as int) + type_fields(rest@))[0]
                            == all[current as int]);
                        assert(self.typ@ == Ty::ExtendTypeRow(all, Box::new(rest@)));
                    }
                    Some(&types[current])
                } else {
                    self.current = 0;
                    self.typ = rest;
                    proof {
                        let all = type_fields_view(types@);
                        assert(all.skip(current as int) + type_fields(rest@) =~= type_fields(
                            rest@,
                        ));
                        assert(old(self)@ =~= type_fields(rest@));
                    types_from_start(rest@);
                    }
                    self.next()
                }
            },
            _ => None,
        }
    }
}

/// The parameters that `typ` is quantified over, the outermost first.
pub open spec fn forall_generics(typ: Ty) -> Seq<GenericTy>
    decreases typ,
{
    match typ {
        Ty::Forall(params, inner) => params + forall_generics(*inner),
        _ => Seq::empty(),
    }
}

/// `typ` without its quantifiers.
pub open spec fn without_forall(typ: Ty) -> Ty
    decreases typ,
{
    match typ {
        Ty::Forall(_, inner) => without_forall(*inner),
        _ => typ,
    }
}

/// The parameters that a walk through `typ` finds from `offset` on. The offset is kept when the walk
/// goes on to a quantifier inside another: as many parameters are passed over there as came before.
pub open spec fn scope_generics(typ: Ty, offset: nat) -> Seq<GenericTy>
    decreases typ,
{
    match typ {
        Ty::Forall(params, inner) => if offset < params.len() {
            params.skip(offset as int) + scope_generics(*inner, params.len())
        } else {
            scope_generics(*inner, offset)
        },
        _ => Seq::empty(),
    }
}

/// Walks through the parameters that a type is quantified over.
pub struct ForallScopeIter<'a> {
    pub typ: &'a ArcType,
    pub offset: usize,
}

/// Starts a walk through the parameters of `typ`.
pub fn forall_scope_iter<'a>(typ: &'a ArcType) -> (res: ForallScopeIter<'a>)
    ensures
        res.typ == typ,
        res.offset == 0,
        res@ == scope_generics(typ@, 0),
{
    ForallScopeIter { typ, offset: 0 }
}

impl<'a> View for ForallScopeIter<'a> {
    type V = Seq<GenericTy>;

    /// The parameters that are still to come.
    open spec fn view(&self) -> Seq<GenericTy> {
        scope_generics(self.typ@, self.offset as nat)
    }
}

impl<'a> ForallScopeIter<'a> {
    /// The next parameter. Behind the last one `typ` is the type without its quantifiers.
    pub fn next(&mut self) -> (res: Option<&'a Generic>)
        ensures
            without_forall(final(self).typ@) == without_forall(old(self).typ@),
            match res {
                Some(param) => old(self)@.len() > 0 && final(self)@ == old(self)@.drop_first()
                    && old(self)@[0] == param@,
                None => old(self)@.len() == 0 && final(self)@.len() == 0 && final(self).typ@
                    == without_forall(old(self).typ@),
            },
        decreases old(self).typ@,
    {
        let typ: &'a ArcType = self.typ;
        match typ.as_type() {
            Type::Forall(params, inner) => {
                let offset: usize = self.offset;
                if offset < params.len() {
                    self.offset = offset + 1;
                    proof {
                        let all = generics_view(params@);
                        let more = scope_generics(inner@, all.len());
                        assert((all.skip(offset as int) + more).drop_first() =~= all.skip(
                            offset + 1,
                        ) + more);
                        assert(all.skip(all.len() as int) + more =~= more);
                    }
                    Some(&params[offset])
                } else {
                    self.typ = inner;
                    self.next()
                }
            },
            _ => None,
        }
    }
}

/// The parameters that `typ` is quantified over, the outermost first.
pub fn forall_params<'a>(typ: &'a ArcType) -> (res: Vec<Generic>)
    ensures
        generics_view(res@) == forall_generics(typ@),
{
    let mut res: Vec<Generic> = Vec::new();
    let mut current = typ;
    assert(generics_view(res@) =~= Seq::<GenericTy>::empty());
    assert(Seq::<GenericTy>::empty() + forall_generics(typ@) =~= forall_generics(typ@));
    loop
        invariant
            generics_view(res@) + forall_generics(current@) == forall_generics(typ@),
        decreases current@,
    {
        match current.as_type() {
            Type::Forall(params, inner) => {
                let ghost before = res@;
                let mut i: usize = 0;
                while i < params.len()
                    invariant
                        i <= params@.len(),
                        res@ == before + params@.subrange(0, i as int),
                    decreases params@.len() - i,
                {
                    res.push(params[i].clone());
                    assert(params@.subrange(0, i + 1) =~= params@.subrange(0, i as int).push(
                        params@[i as int],
                    ));
                    i += 1;
                }
                proof {
                    assert(params@.subrange(0, i as int) =~= params@);
                    assert(generics_view(res@) + forall_generics(inner@) =~= generics_view(before)
                        + (generics_view(params@) + forall_generics(inner@)));
                }
                current = inner;
            },
            _ => {
                assert(generics_view(res@) + forall_generics(current@) =~= generics_view(res@));
                return res;
            },
        }
    }
}

/// `typ` without its quantifiers.
pub fn remove_forall<'a>(typ: &'a ArcType) -> (res: &'a ArcType)
    ensures
        res@ == without_forall(typ@),
    decreases typ@,
{
    match typ.as_type() {
        Type::Forall(_, inner) => remove_forall(inner),
        _ => typ,
    }
}

} // verus!
