//! The names of types that are not known.

use vstd::prelude::*;
use crate::resolve::TypeEnv;
use crate::symbol::Symbol;
use crate::typecheck::state::Typecheck;
use crate::types::model::{parts_decrease, AliasTy, FieldTy, Ty};
use crate::types::{fields_view, symbols_view, types_view, ArcType, Field, Type};

verus! {

/// The type `name` is known: it is one of `infos`, or one of those that are being declared.
pub open spec fn is_known(
    infos: Map<Seq<char>, AliasTy>,
    declared: Seq<Seq<char>>,
    name: Seq<char>,
) -> bool {
    infos.dom().contains(name) || declared.contains(name)
}

pub open spec fn first_of(a: Option<Seq<char>>, b: Option<Seq<char>>) -> Option<Seq<char>> {
    match a {
        Some(name) => Some(name),
        None => b,
    }
}

/// The first name in `t` that is not known.
pub open spec fn unknown_name(
    infos: Map<Seq<char>, AliasTy>,
    declared: Seq<Seq<char>>,
    t: Ty,
) -> Option<Seq<char>>
    decreases t, 0nat,
{
    match t {
        Ty::Ident(id) => if is_known(infos, declared, id) {
            None
        } else {
            Some(id)
        },
        Ty::Forall(_, x) => unknown_name(infos, declared, *x),
        Ty::Function(_, arg, ret) => first_of(
            unknown_name(infos, declared, *arg),
            unknown_name(infos, declared, *ret),
        ),
        Ty::App(f, args) => first_of(
            unknown_name(infos, declared, *f),
            unknown_in_all(infos, declared, args, args.len()),
        ),
        Ty::Record(x) => unknown_name(infos, declared, *x),
        Ty::Variant(x) => unknown_name(infos, declared, *x),
        Ty::Effect(x) => unknown_name(infos, declared, *x),
        Ty::ExtendRow(fields, rest) => first_of(
            unknown_in_fields(infos, declared, fields, fields.len()),
            unknown_name(infos, declared, *rest),
        ),
        Ty::ExtendTypeRow(_, rest) => unknown_name(infos, declared, *rest),
        _ => None,
    }
}

pub open spec fn unknown_in_all(
    infos: Map<Seq<char>, AliasTy>,
    declared: Seq<Seq<char>>,
    types: Seq<Ty>,
    n: nat,
) -> Option<Seq<char>>
    decreases types, n,
{
    if n == 0 || n > types.len() {
        None
    } else {
        first_of(
            unknown_in_all(infos, declared, types, (n - 1) as nat),
            unknown_name(infos, declared, types[n - 1]),
        )
    }
}

pub open spec fn unknown_in_fields(
    infos: Map<Seq<char>, AliasTy>,
    declared: Seq<Seq<char>>,
    fields: Seq<FieldTy>,
    n: nat,
) -> Option<Seq<char>>
    decreases fields, n,
{
    if n == 0 || n > fields.len() {
        None
    } else {
        first_of(
            unknown_in_fields(infos, declared, fields, (n - 1) as nat),
            unknown_name(infos, declared, fields[n - 1].typ),
        )
    }
}

pub open spec fn name_view(name: Option<Symbol>) -> Option<Seq<char>> {
    match name {
        Some(name) => Some(name@),
        None => None,
    }
}

impl<'a, E: TypeEnv> Typecheck<'a, E> {
    /// The first name in `typ` that is not known.
    pub(crate) fn find_unknown(&self, declared: &Vec<Symbol>, typ: &ArcType) -> (res: Option<Symbol>)
        ensures
            name_view(res) == unknown_name(
                self@.infos(self.known()),
                symbols_view(declared@),
                typ@,
            ),
        decreases typ@, 0nat,
    {
        proof {
            parts_decrease(typ@);
        }
        match typ.as_type() {
            Type::Ident(id) => {
                if self.find_type_info(id).is_some() || crate::typecheck::state::is_listed(
                    declared,
                    id,
                ) {
                    None
                } else {
                    Some(id.clone())
                }
            },
            Type::Forall(_, x) | Type::Record(x) | Type::Variant(x) | Type::Effect(x) => {
                self.find_unknown(declared, x)
            },
            Type::Function(_, arg, ret) => match self.find_unknown(declared, arg) {
                Some(name) => Some(name),
                None => self.find_unknown(declared, ret),
            },
            Type::App(f, args) => match self.find_unknown(declared, f) {
                Some(name) => Some(name),
                None => self.find_unknown_in_all(declared, args),
            },
            Type::ExtendRow { fields, rest } => match self.find_unknown_in_fields(
                declared,
                fields,
            ) {
                Some(name) => Some(name),
                None => self.find_unknown(declared, rest),
            },
            Type::ExtendTypeRow { types: _, rest } => self.find_unknown(declared, rest),
            _ => None,
        }
    }

    fn find_unknown_in_all(&self, declared: &Vec<Symbol>, types: &Vec<ArcType>) -> (res: Option<
        Symbol,
    >)
        ensures
            name_view(res) == unknown_in_all(
                self@.infos(self.known()),
                symbols_view(declared@),
                types_view(types@),
                types@.len(),
            ),
        decreases types_view(types@), types@.len(),
    {
        let ghost infos = self@.infos(self.known());
        let ghost names = symbols_view(declared@);
        let ghost all = types_view(types@);
        let mut found: Option<Symbol> = None;
        let mut i: usize = 0;
        while i < types.len()
            invariant
                i <= types@.len(),
                infos == self@.infos(self.known()),
                names == symbols_view(declared@),
                all == types_view(types@),
                name_view(found) == unknown_in_all(infos, names, all, i as nat),
            decreases types@.len() - i,
        {
            assert(decreases_to!(all => all[i as int]));
            if found.is_none() {
                found = self.find_unknown(declared, &types[i]);
            }
            i += 1;
        }
        found
    }

    fn find_unknown_in_fields(&self, declared: &Vec<Symbol>, fields: &Vec<Field>) -> (res: Option<
        Symbol,
    >)
        ensures
            name_view(res) == unknown_in_fields(
                self@.infos(self.known()),
                symbols_view(declared@),
                fields_view(fields@),
                fields@.len(),
            ),
        decreases fields_view(fields@), fields@.len(),
    {
        let ghost infos = self@.infos(self.known());
        let ghost names = symbols_view(declared@);
        let ghost all = fields_view(fields@);
        let mut found: Option<Symbol> = None;
        let mut i: usize = 0;
        while i < fields.len()
            invariant
                i <= fields@.len(),
                infos == self@.infos(self.known()),
                names == symbols_view(declared@),
                all == fields_view(fields@),
                name_view(found) == unknown_in_fields(infos, names, all, i as nat),
            decreases fields@.len() - i,
        {
            assert(decreases_to!(all => all[i as int]));
            assert(decreases_to!(all[i as int] => all[i as int].typ));
            if found.is_none() {
                found = self.find_unknown(declared, &fields[i].typ);
            }
            i += 1;
        }
        found
    }
}

} // verus!
