//! The inference of the types of patterns.

use vstd::prelude::*;
use crate::ast::{Pattern, PatternField, PatternTypeField, SpannedPattern};
use crate::resolve::{expanded, TypeEnv};
use crate::symbol::Symbol;
use crate::typecheck::model::{
    declare, field_type, found, fresh, instantiated_more, record_with, unify, DeclaredTy, Inferred,
    Known, Outcome, TypeFault,
};
use crate::typecheck::state::{field_of, step_is, Declared, TypeError, Typecheck};
use crate::types::model::{FieldTy, GenericTy, Ty};
use crate::types::rows::{row_fields, type_field_iter, type_fields};
use crate::types::walk::new_or;
use crate::types::{
    app_ty, fields_view, generics_view, record_ty, symbols_view, types_view, AliasRef, ArcType,
    Field, Generic, Type,
};

verus! {

/// What the type of an expression or a pattern that has no name is noted by.
pub(crate) fn no_name() -> (res: Symbol)
    ensures
        res@ == ""@,
{
    Symbol::new("".to_owned())
}

/// The name that `pattern` binds, if it is an identifier.
pub open spec fn bound_name(pattern: SpannedPattern) -> Option<Seq<char>> {
    match pattern.value {
        Pattern::Ident(id) => Some(id.name@),
        _ => None,
    }
}

/// Binds the arguments of a constructor of the type `t` from `i` on.
pub open spec fn pattern_args(s: Inferred, args: Seq<SpannedPattern>, i: int, t: Ty) -> Outcome
    decreases args.len() - i,
{
    if i < 0 || i >= args.len() {
        Some((s, Ok(t)))
    } else {
        match (t, bound_name(args[i])) {
            (Ty::Function(_, arg, ret), Some(name)) => pattern_args(
                s.bind(name, *arg).note(name, *arg),
                args,
                i + 1,
                *ret,
            ),
            (Ty::Function(..), None) => None,
            _ => Some((s, Err(TypeFault::PatternError(t, (args.len() - i) as nat)))),
        }
    }
}

/// A variable for each of the first `n` of `fields`, unified with the type of the field in the
/// record `t`.
pub open spec fn known_fields(
    known: Known,
    s: Inferred,
    t: Ty,
    fields: Seq<PatternField>,
    n: nat,
) -> Option<(Inferred, Result<Seq<Ty>, TypeFault>)>
    decreases n,
{
    if n == 0 || n > fields.len() {
        Some((s, Ok(Seq::empty())))
    } else {
        match known_fields(known, s, t, fields, (n - 1) as nat) {
            Some((s, Ok(types))) => {
                let name = fields[n - 1].name.value@;
                match field_type(row_fields(t), name, 0) {
                    None => Some((s, Err(TypeFault::UndefinedField(t, name)))),
                    Some(expected) => match fresh(s) {
                        None => None,
                        Some((s, var)) => match unify(known, s, var, expected) {
                            Some((s, Ok(_))) => Some((s, Ok(types.push(var)))),
                            Some((s, Err(fault))) => Some((s, Err(fault))),
                            None => None,
                        },
                    },
                }
            },
            other => other,
        }
    }
}

pub open spec fn pattern_field_names(fields: Seq<PatternField>) -> Seq<Seq<char>> {
    fields.map_values(|field: PatternField| field.name.value@)
}

/// A field with a new variable as its type for each of the first `n` of `names`.
pub open spec fn fresh_fields(s: Inferred, names: Seq<Seq<char>>, n: nat) -> Option<
    (Inferred, Seq<FieldTy>),
>
    decreases n,
{
    if n == 0 || n > names.len() {
        Some((s, Seq::empty()))
    } else {
        match fresh_fields(s, names, (n - 1) as nat) {
            None => None,
            Some((s, fields)) => match fresh(s) {
                None => None,
                Some((s, typ)) => Some((s, fields.push(FieldTy { name: names[n - 1], typ }))),
            },
        }
    }
}

/// The record type with the fields `names`, and what it stands for. If there is none it is a new
/// one.
pub open spec fn record_for(known: Known, s: Inferred, names: Seq<Seq<char>>) -> Option<
    (Inferred, Ty, Ty),
> {
    match record_with(known, s, names) {
        Some((typ, actual)) => Some((s, typ, actual)),
        None => match fresh_fields(s, names, names.len()) {
            None => None,
            Some((s, fields)) => {
                let t = record_ty(Seq::empty(), fields, Ty::EmptyRow);
                Some((s, t, t))
            },
        },
    }
}

/// The types of the fields together with the record that has them.
pub open spec fn fields_of(
    record: Ty,
    types: Option<(Inferred, Result<Seq<Ty>, TypeFault>)>,
) -> Option<(Inferred, Result<(Ty, Seq<Ty>), TypeFault>)> {
    match types {
        Some((s, Ok(types))) => Some((s, Ok((record, types)))),
        Some((s, Err(fault))) => Some((s, Err(fault))),
        None => None,
    }
}

/// The record that a pattern with `fields` is matched with where nothing is known of it, and the
/// types of its fields.
pub open spec fn unknown_fields(
    known: Known,
    s: Inferred,
    t: Ty,
    fields: Seq<PatternField>,
) -> Option<(Inferred, Result<(Ty, Seq<Ty>), TypeFault>)> {
    match record_for(known, s, pattern_field_names(fields)) {
        None => None,
        Some((s, typ, actual)) => match instantiated_more(s, typ) {
            None => None,
            Some((s, typ)) => match instantiated_more(s, actual) {
                None => None,
                Some((s, actual)) => match unify(known, s, t, typ) {
                    None => None,
                    Some((s, Err(fault))) => Some((s, Err(fault))),
                    Some((s, Ok(_))) => fields_of(
                        actual,
                        known_fields(known, s, actual, fields, fields.len()),
                    ),
                },
            },
        },
    }
}

/// Binds the first `n` of `fields` to `types`.
pub open spec fn bound_fields(
    s: Inferred,
    fields: Seq<PatternField>,
    types: Seq<Ty>,
    n: nat,
) -> Option<Inferred>
    decreases n,
{
    if n == 0 || n > fields.len() || n > types.len() {
        Some(s)
    } else {
        match bound_fields(s, fields, types, (n - 1) as nat) {
            None => None,
            Some(s) => {
                let name = match fields[n - 1].value {
                    Some(pattern) => bound_name(pattern),
                    None => Some(fields[n - 1].name.value@),
                };
                match name {
                    Some(name) => Some(s.bind(name, types[n - 1]).note(name, types[n - 1])),
                    None => None,
                }
            },
        }
    }
}

/// The name that an associated type is bound to.
pub open spec fn type_field_name(field: PatternTypeField) -> Seq<char> {
    match field.value {
        Some(name) => name@,
        None => field.name.value@,
    }
}

/// `params` as types.
pub open spec fn generic_types(params: Seq<GenericTy>) -> Seq<Ty> {
    params.map_values(|param: GenericTy| Ty::Generic(param))
}

/// Brings the first `n` of the associated types of the record `t` into scope.
pub open spec fn bound_types(s: Inferred, t: Ty, types: Seq<PatternTypeField>, n: nat) -> Option<
    (Inferred, Result<(), TypeFault>),
>
    decreases n,
{
    if n == 0 || n > types.len() {
        Some((s, Ok(())))
    } else {
        match bound_types(s, t, types, (n - 1) as nat) {
            Some((s, Ok(()))) => {
                let name = type_field_name(types[n - 1]);
                match field_type(type_fields(t), name, 0) {
                    Some(Ty::Alias(alias)) => {
                        let data = alias.data();
                        let renamed = Inferred {
                            renames: s.renames.push((name, data.name)),
                            ..s
                        };
                        let declared = DeclaredTy {
                            typ: app_ty(Ty::Ident(data.name), generic_types(data.params)),
                            params: data.params,
                            actual: data.typ,
                        };
                        Some((declare(renamed, name, declared), Ok(())))
                    },
                    Some(_) => None,
                    None => Some((s, Err(TypeFault::UndefinedField(t, name)))),
                }
            },
            other => other,
        }
    }
}

pub open spec fn shorter(a: nat, b: nat) -> nat {
    if a <= b {
        a
    } else {
        b
    }
}

/// A record pattern for a value of the type `t`.
pub open spec fn record_pattern(
    known: Known,
    s: Inferred,
    types: Seq<PatternTypeField>,
    fields: Seq<PatternField>,
    t: Ty,
) -> Outcome {
    let s = s.note(""@, t);
    let t = new_or(expanded(s.infos(known), t), t);
    let matched = if t is Record {
        fields_of(t, known_fields(known, s, t, fields, fields.len()))
    } else {
        unknown_fields(known, s, t, fields)
    };
    match matched {
        None => None,
        Some((s, Err(fault))) => Some((s, Err(fault))),
        Some((s, Ok((record, field_types)))) => match bound_fields(
            s,
            fields,
            field_types,
            shorter(fields.len(), field_types.len()),
        ) {
            None => None,
            Some(s) => match bound_types(
                s.skip((fields.len() - shorter(fields.len(), field_types.len())) as nat),
                record,
                types,
                types.len(),
            ) {
                None => None,
                Some((s, Err(fault))) => Some((s, Err(fault))),
                Some((s, Ok(()))) => Some((s, Ok(record))),
            },
        },
    }
}

/// `pattern` for a value of the type `t`.
pub open spec fn pattern_checked(
    known: Known,
    s: Inferred,
    pattern: SpannedPattern,
    t: Ty,
) -> Outcome {
    match pattern.value {
        Pattern::Constructor(id, args) => match found(known, s, id.name@) {
            Some((s, Ok(ctor))) => match pattern_args(s, args@, 0, ctor) {
                Some((s, Ok(ret))) => unify(known, s, t, ret),
                other => other,
            },
            other => other,
        },
        Pattern::Record { typ: _, types, fields } => record_pattern(
            known,
            s,
            types@,
            fields@,
            t,
        ),
        Pattern::Ident(id) => Some((s.bind(id.name@, t).note(id.name@, t), Ok(t))),
        _ => None,
    }
}

proof fn known_fields_before(
    known: Known,
    s: Inferred,
    t: Ty,
    fields: Seq<PatternField>,
    m: nat,
    n: nat,
)
    requires
        m <= n <= fields.len(),
        known_fields(known, s, t, fields, n) is Some,
    ensures
        known_fields(known, s, t, fields, m) is Some,
        (known_fields(known, s, t, fields, m)->0).1 is Err ==> known_fields(known, s, t, fields, n)
            == known_fields(known, s, t, fields, m),
    decreases n,
{
    if m < n {
        known_fields_before(known, s, t, fields, m, (n - 1) as nat);
    }
}

proof fn fresh_fields_before(s: Inferred, names: Seq<Seq<char>>, m: nat, n: nat)
    requires
        m <= n <= names.len(),
        fresh_fields(s, names, n) is Some,
    ensures
        fresh_fields(s, names, m) is Some,
    decreases n,
{
    if m < n {
        fresh_fields_before(s, names, m, (n - 1) as nat);
    }
}

proof fn bound_fields_before(
    s: Inferred,
    fields: Seq<PatternField>,
    types: Seq<Ty>,
    m: nat,
    n: nat,
)
    requires
        m <= n <= fields.len(),
        n <= types.len(),
        bound_fields(s, fields, types, n) is Some,
    ensures
        bound_fields(s, fields, types, m) is Some,
    decreases n,
{
    if m < n {
        bound_fields_before(s, fields, types, m, (n - 1) as nat);
    }
}

proof fn bound_types_before(s: Inferred, t: Ty, types: Seq<PatternTypeField>, m: nat, n: nat)
    requires
        m <= n <= types.len(),
        bound_types(s, t, types, n) is Some,
    ensures
        bound_types(s, t, types, m) is Some,
        (bound_types(s, t, types, m)->0).1 is Err ==> bound_types(s, t, types, n) == bound_types(
            s,
            t,
            types,
            m,
        ),
    decreases n,
{
    if m < n {
        bound_types_before(s, t, types, m, (n - 1) as nat);
    }
}

/// The name that `pattern` binds, if it is an identifier.
pub(crate) fn name_of_pattern(pattern: &SpannedPattern) -> (res: Option<Symbol>)
    ensures
        match res {
            Some(name) => bound_name(*pattern) == Some(name@),
            None => bound_name(*pattern) is None,
        },
{
    match &pattern.value {
        Pattern::Ident(id) => Some(id.name.clone()),
        _ => None,
    }
}

fn names_of_fields(fields: &Vec<PatternField>) -> (res: Vec<Symbol>)
    ensures
        symbols_view(res@) == pattern_field_names(fields@),
{
    let mut res: Vec<Symbol> = Vec::new();
    let mut i: usize = 0;
    while i < fields.len()
        invariant
            i <= fields@.len(),
            res@.len() == i,
            forall|j: int| 0 <= j < i ==> (#[trigger] res@[j])@ == fields@[j].name.value@,
        decreases fields@.len() - i,
    {
        res.push(fields[i].name.value.clone());
        i += 1;
    }
    assert(symbols_view(res@) =~= pattern_field_names(fields@));
    res
}

/// The alias that is the associated type `name` of `typ`.
fn type_field_of(typ: &ArcType, name: &Symbol) -> (res: Option<AliasRef>)
    ensures
        match res {
            Some(alias) => field_type(type_fields(typ@), name@, 0) == Some(Ty::Alias(alias@)),
            None => field_type(type_fields(typ@), name@, 0) is None,
        },
{
    let ghost all = type_fields(typ@);
    let mut iter = type_field_iter(typ);
    let ghost mut i: int = 0;
    assert(all.skip(0) =~= all);
    loop
        invariant
            iter.wf(),
            0 <= i <= all.len(),
            all == type_fields(typ@),
            iter@ == all.skip(i),
            field_type(all, name@, 0) == field_type(all, name@, i),
        decreases iter@.len(),
    {
        match iter.next() {
            Some(field) => {
                proof {
                    assert(all.skip(i)[0] == all[i]);
                    assert(all.skip(i).drop_first() =~= all.skip(i + 1));
                }
                if field.name == *name {
                    return Some(field.typ.as_ref().clone());
                }
                proof {
                    i = i + 1;
                }
            },
            None => {
                return None;
            },
        }
    }
}

/// `params` as types.
pub(crate) fn to_generic_types(params: &Vec<Generic>) -> (res: Vec<ArcType>)
    ensures
        types_view(res@) == generic_types(generics_view(params@)),
{
    let mut res: Vec<ArcType> = Vec::new();
    let mut i: usize = 0;
    while i < params.len()
        invariant
            i <= params@.len(),
            res@.len() == i,
            forall|j: int| 0 <= j < i ==> (#[trigger] res@[j])@ == Ty::Generic(params@[j]@),
        decreases params@.len() - i,
    {
        res.push(Type::generic(params[i].clone()));
        i += 1;
    }
    assert(types_view(res@) =~= generic_types(generics_view(params@)));
    res
}

impl<'a, E: TypeEnv> Typecheck<'a, E> {
    fn typecheck_pattern_rec(&mut self, args: &Vec<SpannedPattern>, typ: ArcType) -> (res: Result<
        ArcType,
        TypeError,
    >)
        requires
            pattern_args(old(self)@, args@, 0, typ@) is Some,
        ensures
            final(self).known() == old(self).known(),
            step_is(res, final(self)@, pattern_args(old(self)@, args@, 0, typ@)),
    {
        let ghost first = pattern_args(self@, args@, 0, typ@);
        let mut current = typ;
        let mut i: usize = 0;
        while i < args.len()
            invariant
                i <= args@.len(),
                self.known() == old(self).known(),
                first is Some,
                first == pattern_args(old(self)@, args@, 0, typ@),
                first == pattern_args(self@, args@, i as int, current@),
            decreases args@.len() - i,
        {
            let next = match current.as_type() {
                Type::Function(_, arg, ret) => {
                    match name_of_pattern(&args[i]) {
                        Some(name) => {
                            self.stack_var(name.clone(), arg.clone());
                            self.note(name, arg.clone());
                        },
                        None => {},
                    }
                    ret.clone()
                },
                _ => {
                    return Err(TypeError::PatternError(current.clone(), args.len() - i));
                },
            };
            current = next;
            i += 1;
        }
        Ok(current)
    }

    fn match_known_fields(&mut self, typ: &ArcType, fields: &Vec<PatternField>) -> (res: Result<
        Vec<ArcType>,
        TypeError,
    >)
        requires
            known_fields(
                old(self).known(),
                old(self)@,
                typ@,
                fields@,
                fields@.len(),
            ) is Some,
        ensures
            final(self).known() == old(self).known(),
            match known_fields(old(self).known(), old(self)@, typ@, fields@, fields@.len()) {
                Some((s, Ok(types))) => final(self)@ == s && (res matches Ok(res) && types_view(
                    res@,
                ) == types),
                Some((s, Err(fault))) => final(self)@ == s && (res matches Err(error) && error@
                    == fault),
                None => false,
            },
    {
        let ghost known = self.known();
        let ghost s = self@;
        let mut types: Vec<ArcType> = Vec::new();
        let mut i: usize = 0;
        assert(types_view(types@) =~= Seq::<Ty>::empty());
        while i < fields.len()
            invariant
                i <= fields@.len(),
                known == old(self).known(),
                self.known() == known,
                s == old(self)@,
                known_fields(known, s, typ@, fields@, fields@.len()) is Some,
                known_fields(known, s, typ@, fields@, i as nat) == Some(
                    (self@, Ok::<Seq<Ty>, TypeFault>(types_view(types@))),
                ),
            decreases fields@.len() - i,
        {
            proof {
                known_fields_before(known, s, typ@, fields@, (i + 1) as nat, fields@.len());
            }
            match field_of(typ, &fields[i].name.value) {
                None => {
                    return Err(
                        TypeError::UndefinedField(typ.clone(), fields[i].name.value.clone()),
                    );
                },
                Some(expected) => {
                    let var = self.new_var();
                    let ghost before = types@;
                    types.push(var.clone());
                    match self.unify(&var, expected) {
                        Ok(_) => {},
                        Err(error) => {
                            return Err(error);
                        },
                    }
                    assert(types_view(types@) =~= types_view(before).push(var@));
                },
            }
            i += 1;
        }
        Ok(types)
    }

    fn new_fields(&mut self, names: &Vec<Symbol>) -> (res: Vec<Field>)
        requires
            fresh_fields(old(self)@, symbols_view(names@), names@.len()) is Some,
        ensures
            final(self).known() == old(self).known(),
            fresh_fields(old(self)@, symbols_view(names@), names@.len()) == Some(
                (final(self)@, fields_view(res@)),
            ),
    {
        let ghost s = self@;
        let ghost all = symbols_view(names@);
        let mut res: Vec<Field> = Vec::new();
        let mut i: usize = 0;
        assert(fields_view(res@) =~= Seq::<FieldTy>::empty());
        while i < names.len()
            invariant
                i <= names@.len(),
                all == symbols_view(names@),
                self.known() == old(self).known(),
                fresh_fields(s, all, names@.len()) is Some,
                fresh_fields(s, all, i as nat) == Some((self@, fields_view(res@))),
            decreases names@.len() - i,
        {
            proof {
                fresh_fields_before(s, all, (i + 1) as nat, names@.len());
            }
            let ghost before = res@;
            let typ = self.new_var();
            res.push(Field { name: names[i].clone(), typ });
            assert(fields_view(res@) =~= fields_view(before).push(
                FieldTy { name: all[i as int], typ: typ@ },
            ));
            i += 1;
        }
        res
    }

    fn match_unknown_fields(&mut self, typ: &ArcType, fields: &Vec<PatternField>) -> (res: Result<
        (ArcType, Vec<ArcType>),
        TypeError,
    >)
        requires
            unknown_fields(
                old(self).known(),
                old(self)@,
                typ@,
                fields@,
            ) is Some,
        ensures
            final(self).known() == old(self).known(),
            match unknown_fields(
                old(self).known(),
                old(self)@,
                typ@,
                fields@,
            ) {
                Some((s, Ok((record, types)))) => final(self)@ == s && (res matches Ok(res)
                    && res.0@ == record && types_view(res.1@) == types),
                Some((s, Err(fault))) => final(self)@ == s && (res matches Err(error) && error@
                    == fault),
                None => false,
            },
    {
        let names = names_of_fields(fields);
        assert(symbols_view(names@).len() == names@.len());
        let (record_type, actual_type) = match self.find_record(&names) {
            Some(found) => found,
            None => {
                let fields = self.new_fields(&names);
                let none: Vec<crate::types::TypeField> = Vec::new();
                assert(crate::types::type_fields_view(none@) =~= Seq::<FieldTy>::empty());
                let t = Type::record(none, fields);
                (t.clone(), t)
            },
        };
        let record_type = self.instantiate_more(&record_type);
        let actual_type = self.instantiate_more(&actual_type);
        match self.unify(typ, record_type) {
            Ok(_) => {},
            Err(error) => {
                return Err(error);
            },
        }
        match self.match_known_fields(&actual_type, fields) {
            Ok(types) => Ok((actual_type, types)),
            Err(error) => Err(error),
        }
    }

    fn bind_fields(&mut self, fields: &Vec<PatternField>, types: &Vec<ArcType>)
        requires
            bound_fields(
                old(self)@,
                fields@,
                types_view(types@),
                shorter(fields@.len(), types@.len()),
            ) is Some,
        ensures
            final(self).known() == old(self).known(),
            bound_fields(
                old(self)@,
                fields@,
                types_view(types@),
                shorter(fields@.len(), types@.len()),
            ) == Some(final(self)@),
    {
        let ghost s = self@;
        let ghost all = types_view(types@);
        let ghost n = shorter(fields@.len(), types@.len());
        let mut i: usize = 0;
        while i < fields.len() && i < types.len()
            invariant
                i <= fields@.len(),
                i <= types@.len(),
                all == types_view(types@),
                n == shorter(fields@.len(), types@.len()),
                self.known() == old(self).known(),
                bound_fields(s, fields@, all, n) is Some,
                bound_fields(s, fields@, all, i as nat) == Some(self@),
            decreases fields@.len() - i,
        {
            proof {
                bound_fields_before(s, fields@, all, (i + 1) as nat, n);
            }
            let name = match &fields[i].value {
                Some(pattern) => name_of_pattern(pattern),
                None => Some(fields[i].name.value.clone()),
            };
            if let Some(name) = name {
                self.stack_var(name.clone(), types[i].clone());
                self.note(name, types[i].clone());
            }
            i += 1;
        }
    }

    pub(crate) fn bind_types(&mut self, typ: &ArcType, types: &Vec<PatternTypeField>) -> (res: Result<
        (),
        TypeError,
    >)
        requires
            bound_types(old(self)@, typ@, types@, types@.len()) is Some,
        ensures
            final(self).known() == old(self).known(),
            match bound_types(old(self)@, typ@, types@, types@.len()) {
                Some((s, Ok(()))) => final(self)@ == s && res is Ok,
                Some((s, Err(fault))) => final(self)@ == s && (res matches Err(error) && error@
                    == fault),
                None => false,
            },
    {
        let ghost s = self@;
        let mut i: usize = 0;
        while i < types.len()
            invariant
                i <= types@.len(),
                s == old(self)@,
                self.known() == old(self).known(),
                bound_types(s, typ@, types@, types@.len()) is Some,
                bound_types(s, typ@, types@, i as nat) == Some(
                    (self@, Ok::<(), TypeFault>(())),
                ),
            decreases types@.len() - i,
        {
            proof {
                bound_types_before(s, typ@, types@, (i + 1) as nat, types@.len());
            }
            let name = match &types[i].value {
                Some(name) => name.clone(),
                None => types[i].name.value.clone(),
            };
            // The associated types of the record should have a type matching the name
            match type_field_of(typ, &name) {
                Some(alias) => {
                    let data = alias.data();
                    let params = crate::types::clone_generics(data.params());
                    let alias_type = Type::app(
                        Type::ident(data.name().clone()),
                        to_generic_types(&params),
                    );
                    // This maps the name a type was given in this module to its actual name
                    self.rename_to(name.clone(), data.name().clone());
                    self.stack_type(
                        name,
                        Declared {
                            typ: alias_type,
                            params,
                            actual: data.unresolved_type().clone(),
                        },
                    );
                },
                None => {
                    return Err(TypeError::UndefinedField(typ.clone(), name));
                },
            }
            i += 1;
        }
        Ok(())
    }

    fn typecheck_record_pattern(
        &mut self,
        types: &Vec<PatternTypeField>,
        fields: &Vec<PatternField>,
        match_type: ArcType,
    ) -> (res: Result<ArcType, TypeError>)
        requires
            record_pattern(old(self).known(), old(self)@, types@, fields@, match_type@) is Some,
        ensures
            final(self).known() == old(self).known(),
            step_is(
                res,
                final(self)@,
                record_pattern(old(self).known(), old(self)@, types@, fields@, match_type@),
            ),
    {
        self.note(no_name(), match_type.clone());
        let match_type = self.remove_alias(&match_type);
        let is_record = match match_type.as_type() {
            Type::Record(_) => true,
            _ => false,
        };
        let matched = if is_record {
            match self.match_known_fields(&match_type, fields) {
                Ok(field_types) => Ok((match_type, field_types)),
                Err(error) => Err(error),
            }
        } else {
            self.match_unknown_fields(&match_type, fields)
        };
        match matched {
            Ok((record, field_types)) => {
                assert(types_view(field_types@).len() == field_types@.len());
                self.bind_fields(fields, &field_types);
                if field_types.len() < fields.len() {
                    self.skip(fields.len() - field_types.len());
                } else {
                    self.skip(0);
                }
                match self.bind_types(&record, types) {
                    Ok(()) => Ok(record),
                    Err(error) => Err(error),
                }
            },
            Err(error) => Err(error),
        }
    }

    pub(crate) fn typecheck_pattern(&mut self, pattern: &SpannedPattern, match_type: ArcType) -> (res:
        Result<ArcType, TypeError>)
        requires
            pattern_checked(old(self).known(), old(self)@, *pattern, match_type@) is Some,
        ensures
            final(self).known() == old(self).known(),
            step_is(
                res,
                final(self)@,
                pattern_checked(old(self).known(), old(self)@, *pattern, match_type@),
            ),
    {
        match &pattern.value {
            Pattern::Constructor(id, args) => {
                // Find the enum constructor and return the types for its arguments
                match self.find(&id.name) {
                    Ok(ctor_type) => match self.typecheck_pattern_rec(args, ctor_type) {
                        Ok(return_type) => self.unify(&match_type, return_type),
                        Err(error) => Err(error),
                    },
                    Err(error) => Err(error),
                }
            },
            Pattern::Record { typ: _, types, fields } => {
                self.typecheck_record_pattern(types, fields, match_type)
            },
            Pattern::Ident(id) => {
                self.stack_var(id.name.clone(), match_type.clone());
                self.note(id.name.clone(), match_type.clone());
                Ok(match_type)
            },
            _ => Ok(match_type),
        }
    }
}

/// The parameters that `args`, the left side of a type binding, are.
pub fn extract_generics(args: &Vec<ArcType>) -> (res: Vec<Generic>)
    requires
        forall|i: int| 0 <= i < args@.len() ==> (#[trigger] args@[i])@ is Generic,
    ensures
        generic_types(generics_view(res@)) == types_view(args@),
{
    let mut res: Vec<Generic> = Vec::new();
    let mut i: usize = 0;
    while i < args.len()
        invariant
            i <= args@.len(),
            forall|i: int| 0 <= i < args@.len() ==> (#[trigger] args@[i])@ is Generic,
            res@.len() == i,
            forall|j: int| 0 <= j < i ==> Ty::Generic((#[trigger] res@[j])@) == args@[j]@,
        decreases args@.len() - i,
    {
        assert(args@[i as int]@ is Generic);
        if let Type::Generic(gen) = args[i].as_type() {
            res.push(gen.clone());
        }
        i += 1;
    }
    assert(generic_types(generics_view(res@)) =~= types_view(args@));
    res
}

/// The names of `fields` and their types in the record `typ`. Of a type that is no record there are
/// none.
pub fn with_pattern_types(fields: &Vec<PatternField>, typ: &ArcType) -> (res: Vec<(Symbol, ArcType)>)
    requires
        typ@ is Record ==> forall|i: int|
            0 <= i < fields@.len() ==> field_type(
                row_fields(typ@),
                (#[trigger] fields@[i]).name.value@,
                0,
            ) is Some,
    ensures
        typ@ is Record ==> res@.len() == fields@.len() && forall|i: int|
            0 <= i < fields@.len() ==> (#[trigger] res@[i]).0@ == fields@[i].name.value@
                && field_type(row_fields(typ@), fields@[i].name.value@, 0) == Some(res@[i].1@),
        !(typ@ is Record) ==> res@.len() == 0,
{
    let mut res: Vec<(Symbol, ArcType)> = Vec::new();
    match typ.as_type() {
        Type::Record(_) => {},
        _ => {
            return res;
        },
    }
    let mut i: usize = 0;
    while i < fields.len()
        invariant
            i <= fields@.len(),
            forall|i: int|
                0 <= i < fields@.len() ==> field_type(
                    row_fields(typ@),
                    (#[trigger] fields@[i]).name.value@,
                    0,
                ) is Some,
            res@.len() == i,
            forall|j: int|
                0 <= j < i ==> (#[trigger] res@[j]).0@ == fields@[j].name.value@ && field_type(
                    row_fields(typ@),
                    fields@[j].name.value@,
                    0,
                ) == Some(res@[j].1@),
        decreases fields@.len() - i,
    {
        assert(field_type(row_fields(typ@), fields@[i as int].name.value@, 0) is Some);
        if let Some(field) = field_of(typ, &fields[i].name.value) {
            res.push((fields[i].name.value.clone(), field));
        }
        i += 1;
    }
    res
}

} // verus!
