//! What the inference of types does, step by step.

use vstd::prelude::*;
use crate::kind::Kind;
use crate::pos::Span;
use crate::resolve::{alias_at, resolved};
use crate::substitution::Subst;
use crate::text::{comes_before, decimal};
use crate::typecheck::kinds::KindFault;
use crate::typecheck::settle::{settled, Renames};
use crate::typecheck::table::latest;
use crate::types::model::{AliasDataTy, AliasTy, FieldTy, GenericTy, Ty};
use crate::types::rows::row_fields;
use crate::types::walk::{new_or, rewritten, Rewrite};
use crate::types::TypeVariable;
use crate::unify_type::{unified, Fault, Surroundings, Unified};

verus! {

/// A declared type: as it is written, its parameters, and what it stands for.
pub struct DeclaredTy {
    pub typ: Ty,
    pub params: Seq<GenericTy>,
    pub actual: Ty,
}

/// What is wrong with an expression.
pub enum TypeFault {
    UndefinedVariable(Seq<char>),
    NotAFunction(Ty),
    UndefinedType(Seq<char>),
    UndefinedField(Ty, Seq<char>),
    PatternError(Ty, nat),
    Unification(Ty, Ty, Seq<Fault>),
    DuplicateTypeDefinition(Seq<char>),
    InvalidFieldAccess(Ty),
    UndefinedRecord(Seq<Seq<char>>),
    /// None of the bindings of the name has the type.
    Rename(Seq<char>, Ty),
    /// Kinds do not agree.
    KindError(KindFault),
    EmptyCase,
}

/// What is wrong, and where.
pub struct Report {
    pub span: Span,
    pub fault: TypeFault,
}

/// What is known from outside.
pub struct Known {
    pub types: Map<Seq<char>, Ty>,
    pub infos: Map<Seq<char>, AliasTy>,
    /// Record types by name, and what they stand for.
    pub records: Seq<(Ty, Ty)>,
    pub bool_type: Ty,
    pub module: Seq<char>,
}

/// How far inference has come.
pub struct Inferred {
    pub subst: Subst,
    pub levels: Seq<u32>,
    /// The types of the values in scope.
    pub values: Seq<(Seq<char>, Ty)>,
    /// The types in scope.
    pub types: Seq<(Seq<char>, DeclaredTy)>,
    /// What the types in the source are called.
    pub renames: Renames,
    /// How long the three were when the scopes were entered.
    pub marks: Seq<(nat, nat, nat)>,
    /// What parameters were last instantiated with, and the parameters that variables became.
    pub named: Seq<(Seq<char>, Ty)>,
    pub reports: Seq<Report>,
    /// The types of the identifiers so far, in order.
    pub notes: Seq<(Seq<char>, Ty)>,
}

/// A type or a fault, and how far inference has come then. There is none where unification does not
/// come to an end, or the expression is not one that has a type.
pub type Outcome = Option<(Inferred, Result<Ty, TypeFault>)>;

/// The aliases that are known where `types` are in scope.
pub open spec fn with_declared(
    infos: Map<Seq<char>, AliasTy>,
    types: Seq<(Seq<char>, DeclaredTy)>,
) -> Map<Seq<char>, AliasTy>
    decreases types.len(),
{
    if types.len() == 0 {
        infos
    } else {
        with_declared(infos, types.drop_last()).insert(
            types.last().0,
            declared_alias(types.last().0, types.last().1),
        )
    }
}

pub open spec fn declared_alias(name: Seq<char>, declared: DeclaredTy) -> AliasTy {
    AliasTy {
        index: 0,
        group: seq![
            AliasDataTy {
                name,
                params: declared.params,
                typ: declared.actual,
                is_implicit: false,
            },
        ],
    }
}

impl Inferred {
    /// The aliases that are known.
    pub open spec fn infos(self, known: Known) -> Map<Seq<char>, AliasTy> {
        with_declared(known.infos, self.types)
    }

    pub open spec fn bind(self, name: Seq<char>, t: Ty) -> Inferred {
        Inferred { values: self.values.push((name, t)), ..self }
    }

    pub open spec fn note(self, name: Seq<char>, t: Ty) -> Inferred {
        Inferred { notes: self.notes.push((name, t)), ..self }
    }

    /// `n` identifiers are met of which no type is found.
    pub open spec fn skip(self, n: nat) -> Inferred {
        Inferred { notes: self.notes + Seq::new(n, |i: int| (""@, Ty::Hole)), ..self }
    }

    pub open spec fn report(self, span: Span, fault: TypeFault) -> Inferred {
        Inferred { reports: self.reports.push(Report { span, fault }), ..self }
    }

    pub open spec fn enter(self) -> Inferred {
        Inferred {
            marks: self.marks.push((self.values.len(), self.types.len(), self.renames.len())),
            ..self
        }
    }

    pub open spec fn exit(self) -> Inferred {
        if self.marks.len() == 0 {
            self
        } else {
            let mark = self.marks.last();
            Inferred {
                values: cut(self.values, mark.0),
                types: cut(self.types, mark.1),
                renames: cut(self.renames, mark.2),
                marks: self.marks.drop_last(),
                ..self
            }
        }
    }
}

/// The first `n` of `list`, or all of it.
pub open spec fn cut<T>(list: Seq<T>, n: nat) -> Seq<T> {
    if n <= list.len() {
        list.take(n as int)
    } else {
        list
    }
}

/// A new variable.
pub open spec fn fresh(s: Inferred) -> Option<(Inferred, Ty)> {
    if s.subst.len() < u32::MAX {
        Some(
            (
                Inferred {
                    subst: s.subst.push(None),
                    levels: s.levels.push((s.subst.len() + 1) as u32),
                    ..s
                },
                Ty::Variable(
                    TypeVariable {
                        kind: std::sync::Arc::new(Kind::Type),
                        id: s.subst.len() as u32,
                    },
                ),
            ),
        )
    } else {
        None
    }
}

/// The first `n` of `faults` with their variables replaced.
pub open spec fn settled_faults(subst: Subst, faults: Seq<Fault>, n: nat) -> Option<Seq<Fault>>
    decreases n,
{
    if n == 0 || n > faults.len() {
        Some(Seq::empty())
    } else {
        match (settled_faults(subst, faults, (n - 1) as nat), settled_fault(subst, faults[n - 1])) {
            (Some(before), Some(fault)) => Some(before.push(fault)),
            _ => None,
        }
    }
}

pub open spec fn settled_fault(subst: Subst, fault: Fault) -> Option<Fault> {
    match fault {
        Fault::Mismatch(l, r) => match (
            settled(subst, Seq::empty(), l),
            settled(subst, Seq::empty(), r),
        ) {
            (Some(l), Some(r)) => Some(Fault::Mismatch(l, r)),
            _ => None,
        },
        Fault::Occurs(var, t) => match settled(subst, Seq::empty(), t) {
            Some(t) => Some(Fault::Occurs(var, t)),
            None => None,
        },
        other => Some(other),
    }
}

/// What unification starts from.
pub open spec fn to_unify(s: Inferred) -> Unified {
    Unified {
        subst: s.subst,
        levels: s.levels,
        faults: Seq::empty(),
        reduced: Seq::empty(),
        context: None,
    }
}

/// Makes `expected` and `actual` the same type.
pub open spec fn unify(known: Known, s: Inferred, expected: Ty, actual: Ty) -> Outcome {
    let around = Surroundings { infos: s.infos(known), signature: None };
    match unified(around, to_unify(s), expected, actual) {
        None => None,
        Some((u, new)) => {
            let after = Inferred { subst: u.subst, levels: u.levels, ..s };
            if u.faults.len() == 0 {
                match settled(u.subst, Seq::empty(), new_or(new, expected)) {
                    Some(t) => Some((after, Ok(t))),
                    None => None,
                }
            } else {
                match (
                    settled(u.subst, Seq::empty(), expected),
                    settled(u.subst, Seq::empty(), actual),
                    settled_faults(u.subst, u.faults, u.faults.len()),
                ) {
                    (Some(l), Some(r), Some(faults)) => Some(
                        (after, Err(TypeFault::Unification(l, r, faults))),
                    ),
                    _ => None,
                }
            }
        },
    }
}

/// The parameters in `t` beside those in `seen`, each once, in the order in which they occur.
pub open spec fn generics_in(t: Ty, seen: Seq<Seq<char>>) -> Seq<Seq<char>>
    decreases t, 0nat,
{
    match t {
        Ty::Generic(gen) => if seen.contains(gen.id) {
            seen
        } else {
            seen.push(gen.id)
        },
        Ty::Forall(_, x) => generics_in(*x, seen),
        Ty::Function(_, arg, ret) => generics_in(*ret, generics_in(*arg, seen)),
        Ty::App(f, args) => generics_in_all(args, args.len(), generics_in(*f, seen)),
        Ty::Record(x) => generics_in(*x, seen),
        Ty::Variant(x) => generics_in(*x, seen),
        Ty::Effect(x) => generics_in(*x, seen),
        Ty::ExtendRow(fields, rest) => generics_in(
            *rest,
            generics_in_fields(fields, fields.len(), seen),
        ),
        Ty::ExtendTypeRow(_, rest) => generics_in(*rest, seen),
        _ => seen,
    }
}

pub open spec fn generics_in_all(types: Seq<Ty>, n: nat, seen: Seq<Seq<char>>) -> Seq<Seq<char>>
    decreases types, n,
{
    if n == 0 || n > types.len() {
        seen
    } else {
        generics_in(types[n - 1], generics_in_all(types, (n - 1) as nat, seen))
    }
}

pub open spec fn generics_in_fields(
    fields: Seq<FieldTy>,
    n: nat,
    seen: Seq<Seq<char>>,
) -> Seq<Seq<char>>
    decreases fields, n,
{
    if n == 0 || n > fields.len() {
        seen
    } else {
        generics_in(fields[n - 1].typ, generics_in_fields(fields, (n - 1) as nat, seen))
    }
}

/// Gives each of the first `n` of `names` that has none a new variable.
pub open spec fn named_all(s: Inferred, names: Seq<Seq<char>>, n: nat) -> Option<Inferred>
    decreases n,
{
    if n == 0 || n > names.len() {
        Some(s)
    } else {
        match named_all(s, names, (n - 1) as nat) {
            None => None,
            Some(s) => if latest(s.named, names[n - 1]) is Some {
                Some(s)
            } else {
                match fresh(s) {
                    Some((s, var)) => Some(
                        Inferred { named: s.named.push((names[n - 1], var)), ..s },
                    ),
                    None => None,
                }
            },
        }
    }
}

/// The map that `table` stands for.
pub open spec fn table_map(table: Seq<(Seq<char>, Ty)>) -> Map<Seq<char>, Ty>
    decreases table.len(),
{
    if table.len() == 0 {
        Map::empty()
    } else {
        table_map(table.drop_last()).insert(table.last().0, table.last().1)
    }
}

/// `t` with its parameters replaced by variables, those that were instantiated before by the same
/// ones.
pub open spec fn instantiated_more(s: Inferred, t: Ty) -> Option<(Inferred, Ty)> {
    let names = generics_in(t, Seq::empty());
    match named_all(s, names, names.len()) {
        None => None,
        Some(s) => Some((s, new_or(rewritten(t, Rewrite::Generics(table_map(s.named))), t))),
    }
}

/// `t` with its parameters replaced by new variables.
pub open spec fn instantiated(s: Inferred, t: Ty) -> Option<(Inferred, Ty)> {
    instantiated_more(Inferred { named: Seq::empty(), ..s }, t)
}

/// The type of the value `name`, instantiated.
pub open spec fn found(known: Known, s: Inferred, name: Seq<char>) -> Outcome {
    let bound = match latest(s.values, name) {
        Some(t) => Some(t),
        None => if known.types.dom().contains(name) {
            Some(known.types[name])
        } else {
            None
        },
    };
    match bound {
        None => Some((s, Err(TypeFault::UndefinedVariable(name)))),
        Some(t) => match settled(s.subst, Seq::empty(), t) {
            None => None,
            Some(t) => match instantiated(s, t) {
                None => None,
                Some((s, t)) => Some((s, Ok(t))),
            },
        },
    }
}

/// `t` is a record that has all of `fields`.
pub open spec fn has_fields(t: Ty, fields: Seq<Seq<char>>) -> bool {
    t is Record && forall|i: int|
        0 <= i < fields.len() ==> has_field_named(row_fields(t), #[trigger] fields[i])
}

pub open spec fn has_field_named(fields: Seq<FieldTy>, name: Seq<char>) -> bool {
    exists|i: int| 0 <= i < fields.len() && (#[trigger] fields[i]).name == name
}

/// The first of `types` from `i` on that is a record with all of `fields`.
pub open spec fn local_record(
    types: Seq<(Seq<char>, DeclaredTy)>,
    fields: Seq<Seq<char>>,
    i: int,
) -> Option<(Ty, Ty)>
    decreases types.len() - i,
{
    if i < 0 || i >= types.len() {
        None
    } else if has_fields(types[i].1.actual, fields) {
        Some((types[i].1.typ, types[i].1.actual))
    } else {
        local_record(types, fields, i + 1)
    }
}

/// The first of `records` from `i` on that has all of `fields`.
pub open spec fn outer_record(records: Seq<(Ty, Ty)>, fields: Seq<Seq<char>>, i: int) -> Option<
    (Ty, Ty),
>
    decreases records.len() - i,
{
    if i < 0 || i >= records.len() {
        None
    } else if has_fields(records[i].1, fields) {
        Some(records[i])
    } else {
        outer_record(records, fields, i + 1)
    }
}

/// The record type that has all of `fields`.
pub open spec fn record_with(known: Known, s: Inferred, fields: Seq<Seq<char>>) -> Option<(Ty, Ty)> {
    match local_record(s.types, fields, 0) {
        Some(found) => Some(found),
        None => outer_record(known.records, fields, 0),
    }
}

/// The parameters and the type of the alias `name`.
pub open spec fn type_info(known: Known, s: Inferred, name: Seq<char>) -> Option<AliasTy> {
    if s.infos(known).dom().contains(name) {
        Some(s.infos(known)[name])
    } else {
        None
    }
}

/// The first field named `name` from `i` on.
pub open spec fn field_type(fields: Seq<FieldTy>, name: Seq<char>, i: int) -> Option<Ty>
    decreases fields.len() - i,
{
    if i < 0 || i >= fields.len() {
        None
    } else if fields[i].name == name {
        Some(fields[i].typ)
    } else {
        field_type(fields, name, i + 1)
    }
}

/// Binds the constructors of a variant.
pub open spec fn bind_all(s: Inferred, fields: Seq<FieldTy>, n: nat) -> Inferred
    decreases n,
{
    if n == 0 || n > fields.len() {
        s
    } else {
        bind_all(s, fields, (n - 1) as nat).bind(fields[n - 1].name, fields[n - 1].typ)
    }
}

/// Brings a type into scope, with the constructors of a variant. It is known by its own name too.
pub open spec fn declare(s: Inferred, name: Seq<char>, declared: DeclaredTy) -> Inferred {
    let with_ctors = if declared.actual is Variant {
        let fields = row_fields(declared.actual);
        bind_all(s, fields, fields.len())
    } else {
        s
    };
    let own = match own_name(declared.typ) {
        Some(id) => with_ctors.types.push((id, declared)),
        None => with_ctors.types,
    };
    Inferred { types: own.push((name, declared)), ..with_ctors }
}

/// The name that a type applies.
pub open spec fn own_name(t: Ty) -> Option<Seq<char>>
    decreases t,
{
    match t {
        Ty::Ident(id) => Some(id),
        Ty::App(f, _) => own_name(*f),
        _ => None,
    }
}

/// The greatest of "a" and the first `n` names in `table`.
pub open spec fn greatest_name(table: Seq<(Seq<char>, Ty)>, n: nat) -> Seq<char>
    decreases n,
{
    if n == 0 || n > table.len() {
        "a"@
    } else {
        let before = greatest_name(table, (n - 1) as nat);
        if comes_before(before, table[n - 1].0) {
            table[n - 1].0
        } else {
            before
        }
    }
}

/// The variables in `t` beside those in `seen`, in the order in which they occur.
pub open spec fn variables_in(t: Ty, seen: Seq<TypeVariable>) -> Seq<TypeVariable>
    decreases t, 0nat,
{
    match t {
        Ty::Variable(var) => seen.push(var),
        Ty::Forall(_, x) => variables_in(*x, seen),
        Ty::Function(_, arg, ret) => variables_in(*ret, variables_in(*arg, seen)),
        Ty::App(f, args) => variables_in_all(args, args.len(), variables_in(*f, seen)),
        Ty::Record(x) => variables_in(*x, seen),
        Ty::Variant(x) => variables_in(*x, seen),
        Ty::Effect(x) => variables_in(*x, seen),
        Ty::ExtendRow(fields, rest) => variables_in(
            *rest,
            variables_in_fields(fields, fields.len(), seen),
        ),
        Ty::ExtendTypeRow(_, rest) => variables_in(*rest, seen),
        _ => seen,
    }
}

pub open spec fn variables_in_all(types: Seq<Ty>, n: nat, seen: Seq<TypeVariable>) -> Seq<
    TypeVariable,
>
    decreases types, n,
{
    if n == 0 || n > types.len() {
        seen
    } else {
        variables_in(types[n - 1], variables_in_all(types, (n - 1) as nat, seen))
    }
}

pub open spec fn variables_in_fields(
    fields: Seq<FieldTy>,
    n: nat,
    seen: Seq<TypeVariable>,
) -> Seq<TypeVariable>
    decreases fields, n,
{
    if n == 0 || n > fields.len() {
        seen
    } else {
        variables_in(fields[n - 1].typ, variables_in_fields(fields, (n - 1) as nat, seen))
    }
}

/// Makes a parameter of each of the first `n` of `vars` that is above `level` and not bound. The
/// parameters are named `prefix` and a number.
pub open spec fn quantified(
    s: Inferred,
    level: u32,
    prefix: Seq<char>,
    vars: Seq<TypeVariable>,
    n: nat,
) -> Option<(Inferred, nat)>
    decreases n,
{
    if n == 0 || n > vars.len() {
        Some((s, 0))
    } else {
        match quantified(s, level, prefix, vars, (n - 1) as nat) {
            None => None,
            Some((s, i)) => {
                let var = vars[n - 1];
                if var.id >= s.subst.len() || var.id >= s.levels.len() {
                    None
                } else if s.subst[var.id as int] is None && s.levels[var.id as int] > level {
                    if i < u64::MAX {
                        let gen = Ty::Generic(
                            GenericTy { id: prefix + decimal(i), kind: var.kind },
                        );
                        Some(
                            (
                                Inferred {
                                    subst: s.subst.update(var.id as int, Some(gen)),
                                    named: s.named.push((prefix + decimal(i), gen)),
                                    ..s
                                },
                                i + 1,
                            ),
                        )
                    } else {
                        None
                    }
                } else {
                    Some((s, i))
                }
            },
        }
    }
}

/// `t` with its variables replaced. Those above `level` that are not bound become parameters.
pub open spec fn finished(s: Inferred, level: u32, t: Ty) -> Option<(Inferred, Ty)> {
    let prefix = greatest_name(s.named, s.named.len());
    match settled(s.subst, Seq::empty(), t) {
        None => None,
        Some(u) => {
            let vars = variables_in(u, Seq::empty());
            match quantified(s, level, prefix, vars, vars.len()) {
                None => None,
                Some((s, _)) => match settled(s.subst, Seq::empty(), u) {
                    Some(t) => Some((s, t)),
                    None => None,
                },
            }
        },
    }
}

/// The types of the first `n` values in scope finished.
pub open spec fn finished_values(s: Inferred, level: u32, n: nat) -> Option<Inferred>
    decreases n,
{
    if n == 0 || n > s.values.len() {
        Some(s)
    } else {
        match finished_values(s, level, (n - 1) as nat) {
            None => None,
            Some(s) => if n > s.values.len() {
                None
            } else {
                match finished(s, level, s.values[n - 1].1) {
                    Some((s2, t)) => Some(
                        Inferred { values: s.values.update(n - 1, (s.values[n - 1].0, t)), ..s2 },
                    ),
                    None => None,
                }
            },
        }
    }
}

/// The types of the first `n` identifiers behind the first `from` finished.
pub open spec fn finished_notes(s: Inferred, level: u32, from: nat, n: nat) -> Option<Inferred>
    decreases n,
{
    if n == 0 || from + n > s.notes.len() {
        Some(s)
    } else {
        match finished_notes(s, level, from, (n - 1) as nat) {
            None => None,
            Some(s) => if from + n > s.notes.len() {
                None
            } else {
                let at = from + n - 1;
                match finished(s, level, s.notes[at].1) {
                    Some((s2, t)) => Some(
                        Inferred { notes: s.notes.update(at, (s.notes[at].0, t)), ..s2 },
                    ),
                    None => None,
                }
            },
        }
    }
}

/// The variables above `level` become parameters, in the types of the values in scope and of the
/// identifiers behind the first `from`.
pub open spec fn generalized(s: Inferred, level: u32, from: nat) -> Option<Inferred> {
    match finished_values(s, level, s.values.len()) {
        None => None,
        Some(s) => if from > s.notes.len() {
            None
        } else {
            finished_notes(s, level, from, (s.notes.len() - from) as nat)
        },
    }
}

/// The next argument of a function type, and what is left of the type.
pub enum NextArg {
    /// The argument
    Arg(Ty, Ty),
    /// The type takes no more arguments.
    Stop,
    /// Nothing is known of the argument.
    Unknown(Ty),
}

pub open spec fn next_arg(infos: Map<Seq<char>, AliasTy>, t: Ty) -> Option<NextArg> {
    match resolved(infos, t) {
        None => None,
        Some(t) => match t {
            Ty::Function(_, arg, ret) => Some(NextArg::Arg(*arg, *ret)),
            _ => if alias_at(infos, t) is Some {
                Some(NextArg::Stop)
            } else {
                Some(NextArg::Unknown(t))
            },
        },
    }
}

/// Leaving a scope brings back what was in scope when it was entered, whatever came into scope since.
pub proof fn leaving_restores_scope(s: Inferred, later: Inferred)
    requires
        later.marks == s.enter().marks,
        later.values.len() >= s.values.len(),
        later.values.take(s.values.len() as int) == s.values,
        later.types.len() >= s.types.len(),
        later.types.take(s.types.len() as int) == s.types,
        later.renames.len() >= s.renames.len(),
        later.renames.take(s.renames.len() as int) == s.renames,
    ensures
        later.exit().values == s.values,
        later.exit().types == s.types,
        later.exit().renames == s.renames,
        later.exit().marks == s.marks,
{
    assert(later.marks.drop_last() =~= s.marks);
}

/// A value that is bound hides the others of its name, and no others.
pub proof fn latest_binding_is_found(s: Inferred, name: Seq<char>, t: Ty, other: Seq<char>)
    ensures
        latest(s.bind(name, t).values, name) == Some(t),
        other != name ==> latest(s.bind(name, t).values, other) == latest(s.values, other),
{
    assert(s.bind(name, t).values.drop_last() =~= s.values);
}

} // verus!
