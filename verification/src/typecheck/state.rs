//! The state of the inference of types.

use vstd::prelude::*;
use crate::pos::{Span, Spanned};
use crate::resolve::{peek_alias, remove_aliases, resolved, TypeEnv};
use crate::substitution::Substitution;
use crate::symbol::Symbol;
use crate::symbol_map::SymbolMap;
use crate::text::{decimal_string, is_before, join};
use crate::typecheck::kinds;
use crate::typecheck::model::{
    bind_all, cut, declare, declared_alias, field_type, finished, finished_notes, finished_values,
    found, fresh, generalized, generics_in, generics_in_all, generics_in_fields, greatest_name,
    has_field_named, has_fields, instantiated, instantiated_more, local_record, named_all,
    next_arg, outer_record, own_name, quantified, record_with, settled_faults, table_map, to_unify,
    type_info, unify, variables_in, variables_in_all, variables_in_fields, with_declared,
    DeclaredTy, Inferred, Known, NextArg, Outcome, Report, TypeFault,
};
use crate::typecheck::settle::{settle_variables, settled};
use crate::typecheck::table::{
    find_before, find_last, last_at, latest, latest_is_at, latest_is_none, latest_type, names_table,
    types_table,
};
use crate::types::model::{parts_decrease, AliasTy, FieldTy, Ty};
use crate::types::rows::{row_fields, row_iter};
use crate::types::walk::{map_view, new_or, opt_view};
use crate::types::{
    fields_view, generics_view, symbols_view, types_view, AliasData, AliasRef, ArcType, Generic,
    Type, TypeVariable,
};
use crate::unify_type;
use crate::unify_type::{faults, Fault, State};

verus! {

/// A declared type: as it is written, its parameters, and what it stands for.
pub struct Declared {
    pub typ: ArcType,
    pub params: Vec<Generic>,
    pub actual: ArcType,
}

impl View for Declared {
    type V = DeclaredTy;

    open spec fn view(&self) -> DeclaredTy {
        DeclaredTy {
            typ: self.typ@,
            params: generics_view(self.params@),
            actual: self.actual@,
        }
    }
}

impl Clone for Declared {
    fn clone(&self) -> (res: Declared)
        ensures
            res@ == self@,
    {
        Declared {
            typ: self.typ.clone(),
            params: crate::types::clone_generics(&self.params),
            actual: self.actual.clone(),
        }
    }
}

/// Type representing a single error when checking a type
pub enum TypeError {
    /// Variable has not been defined before it was used
    UndefinedVariable(Symbol),
    /// Attempt to call a type which is not a function
    NotAFunction(ArcType),
    /// Type has not been defined before it was used
    UndefinedType(Symbol),
    /// Type were expected to have a certain field
    UndefinedField(ArcType, Symbol),
    /// Constructor type was found in a pattern but did not have the expected number of arguments
    PatternError(ArcType, usize),
    /// Errors found when trying to unify two types
    Unification(ArcType, ArcType, Vec<unify_type::Error>),
    /// Multiple types were declared with the same name in the same expression
    DuplicateTypeDefinition(Symbol),
    /// Type is not a type which has any fields
    InvalidFieldAccess(ArcType),
    /// Expected to find a record with the following fields
    UndefinedRecord { fields: Vec<Symbol> },
    /// Errors found during renaming (overload resolution): none of the bindings of the name has the
    /// type
    Rename(Symbol, ArcType),
    /// Errors found when trying to unify two kinds
    KindError(kinds::Error),
    /// Found a case expression without any alternatives
    EmptyCase,
}

impl View for TypeError {
    type V = TypeFault;

    open spec fn view(&self) -> TypeFault {
        match self {
            TypeError::UndefinedVariable(id) => TypeFault::UndefinedVariable(id@),
            TypeError::NotAFunction(typ) => TypeFault::NotAFunction(typ@),
            TypeError::UndefinedType(id) => TypeFault::UndefinedType(id@),
            TypeError::UndefinedField(typ, field) => TypeFault::UndefinedField(typ@, field@),
            TypeError::PatternError(typ, n) => TypeFault::PatternError(typ@, *n as nat),
            TypeError::Unification(l, r, errors) => TypeFault::Unification(
                l@,
                r@,
                faults(errors@),
            ),
            TypeError::DuplicateTypeDefinition(id) => TypeFault::DuplicateTypeDefinition(id@),
            TypeError::InvalidFieldAccess(typ) => TypeFault::InvalidFieldAccess(typ@),
            TypeError::UndefinedRecord { fields } => TypeFault::UndefinedRecord(
                symbols_view(fields@),
            ),
            TypeError::Rename(id, typ) => TypeFault::Rename(id@, typ@),
            TypeError::KindError(error) => TypeFault::KindError(error@),
            TypeError::EmptyCase => TypeFault::EmptyCase,
        }
    }
}

/// The types in scope.
pub open spec fn declared_table(table: Seq<(Symbol, Declared)>) -> Seq<(Seq<char>, DeclaredTy)> {
    table.map_values(|entry: (Symbol, Declared)| (entry.0@, entry.1@))
}

/// The errors that were found.
pub open spec fn reports_view(errors: Seq<Spanned<TypeError>>) -> Seq<Report> {
    errors.map_values(
        |error: Spanned<TypeError>| Report { span: error.span, fault: error.value@ },
    )
}

pub open spec fn records_view(records: Seq<(ArcType, ArcType)>) -> Seq<(Ty, Ty)> {
    records.map_values(|record: (ArcType, ArcType)| (record.0@, record.1@))
}

pub open spec fn marks_view(marks: Seq<(usize, usize, usize)>) -> Seq<(nat, nat, nat)> {
    marks.map_values(
        |mark: (usize, usize, usize)| (mark.0 as nat, mark.1 as nat, mark.2 as nat),
    )
}

/// The names in scope, and those known from outside.
pub struct Environment<'a, E> {
    environment: &'a E,
    stack: Vec<(Symbol, ArcType)>,
    stack_types: Vec<(Symbol, Declared)>,
}

proof fn with_declared_at(
    infos: Map<Seq<char>, AliasTy>,
    types: Seq<(Seq<char>, DeclaredTy)>,
    name: Seq<char>,
)
    ensures
        match latest(types, name) {
            Some(declared) => with_declared(infos, types).dom().contains(name) && with_declared(
                infos,
                types,
            )[name] == declared_alias(name, declared),
            None => with_declared(infos, types).dom().contains(name) == infos.dom().contains(name)
                && (infos.dom().contains(name) ==> with_declared(infos, types)[name]
                == infos[name]),
        },
    decreases types.len(),
{
    if types.len() > 0 {
        with_declared_at(infos, types.drop_last(), name);
    }
}

/// The type `name`.
fn latest_declared<'b>(table: &'b Vec<(Symbol, Declared)>, name: &Symbol) -> (res: Option<
    &'b Declared,
>)
    ensures
        match res {
            Some(declared) => latest(declared_table(table@), name@) == Some(declared@),
            None => latest(declared_table(table@), name@) is None,
        },
{
    match find_last(table, name) {
        Some(i) => {
            proof {
                let all = declared_table(table@);
                assert forall|j: int| i < j < all.len() implies (#[trigger] all[j]).0 != name@ by {
                    assert(table@[j].0@ != name@);
                }
                latest_is_at(all, name@, i as int);
            }
            Some(&table[i].1)
        },
        None => {
            proof {
                let all = declared_table(table@);
                assert forall|j: int| 0 <= j < all.len() implies (#[trigger] all[j]).0 != name@ by {
                    assert(table@[j].0@ != name@);
                }
                latest_is_none(all, name@);
            }
            None
        },
    }
}

impl<'a, E: TypeEnv> TypeEnv for Environment<'a, E> {
    closed spec fn types(&self) -> Map<Seq<char>, Ty> {
        self.environment.types().union_prefer_right(table_map(types_table(self.stack@)))
    }

    closed spec fn infos(&self) -> Map<Seq<char>, AliasTy> {
        with_declared(self.environment.infos(), declared_table(self.stack_types@))
    }

    fn find_type(&self, id: &Symbol) -> (res: Option<ArcType>) {
        proof {
            table_map_at(types_table(self.stack@), id@);
        }
        match latest_type(&self.stack, id) {
            Some(typ) => Some(typ.clone()),
            None => self.environment.find_type(id),
        }
    }

    fn find_type_info(&self, id: &Symbol) -> (res: Option<AliasRef>) {
        proof {
            with_declared_at(
                self.environment.infos(),
                declared_table(self.stack_types@),
                id@,
            );
        }
        match latest_declared(&self.stack_types, id) {
            Some(declared) => {
                let data = AliasData::new(
                    id.clone(),
                    crate::types::clone_generics(&declared.params),
                    declared.actual.clone(),
                );
                let group = vec![data];
                assert(crate::types::group_view(group@) =~= seq![data@]);
                Some(AliasRef::new(0, std::sync::Arc::new(group)))
            },
            None => self.environment.find_type_info(id),
        }
    }
}

proof fn table_map_at(table: Seq<(Seq<char>, Ty)>, name: Seq<char>)
    ensures
        match latest(table, name) {
            Some(t) => table_map(table).dom().contains(name) && table_map(table)[name] == t,
            None => !table_map(table).dom().contains(name),
        },
    decreases table.len(),
{
    if table.len() > 0 {
        table_map_at(table.drop_last(), name);
    }
}

/// Struct which provides methods to typecheck expressions.
pub struct Typecheck<'a, E> {
    environment: Environment<'a, E>,
    /// Record types by name, and what they stand for.
    records: Vec<(ArcType, ArcType)>,
    bool_type: ArcType,
    module: Symbol,
    /// Mapping from the names of the types in the source to the names that were given to them
    /// during typechecking
    original_symbols: Vec<(Symbol, Symbol)>,
    marks: Vec<(usize, usize, usize)>,
    subs: Substitution,
    named_variables: Vec<(Symbol, ArcType)>,
    errors: Vec<Spanned<TypeError>>,
    notes: Vec<(Symbol, ArcType)>,
}

impl<'a, E: TypeEnv> View for Typecheck<'a, E> {
    type V = Inferred;

    closed spec fn view(&self) -> Inferred {
        Inferred {
            subst: self.subs@,
            levels: self.subs.levels(),
            values: types_table(self.environment.stack@),
            types: declared_table(self.environment.stack_types@),
            renames: names_table(self.original_symbols@),
            marks: marks_view(self.marks@),
            named: types_table(self.named_variables@),
            reports: reports_view(self.errors@),
            notes: types_table(self.notes@),
        }
    }
}

/// What came of a step.
pub open spec fn step_is(
    res: Result<ArcType, TypeError>,
    after: Inferred,
    outcome: Outcome,
) -> bool {
    match (outcome, res) {
        (Some((s, Ok(t))), Ok(typ)) => after == s && typ@ == t,
        (Some((s, Err(fault))), Err(error)) => after == s && error@ == fault,
        _ => false,
    }
}

impl<'a, E: TypeEnv> Typecheck<'a, E> {
    /// What is known from outside.
    pub closed spec fn known(&self) -> Known {
        Known {
            types: self.environment.environment.types(),
            infos: self.environment.environment.infos(),
            records: records_view(self.records@),
            bool_type: self.bool_type@,
            module: self.module@,
        }
    }

    /// Create a new typechecker which typechecks expressions in `module`. `records` are the record
    /// types that are known by their fields.
    pub fn new(
        module: Symbol,
        environment: &'a E,
        bool_type: ArcType,
        records: Vec<(ArcType, ArcType)>,
    ) -> (res: Typecheck<'a, E>)
        ensures
            res.known() == (Known {
                types: environment.types(),
                infos: environment.infos(),
                records: records_view(records@),
                bool_type: bool_type@,
                module: module@,
            }),
            res@ == (Inferred {
                subst: Seq::empty(),
                levels: Seq::empty(),
                values: Seq::empty(),
                types: Seq::empty(),
                renames: Seq::empty(),
                marks: Seq::empty(),
                named: Seq::empty(),
                reports: Seq::empty(),
                notes: Seq::empty(),
            }),
    {
        let res = Typecheck {
            environment: Environment {
                environment,
                stack: Vec::new(),
                stack_types: Vec::new(),
            },
            records,
            bool_type,
            module,
            original_symbols: Vec::new(),
            marks: Vec::new(),
            subs: Substitution::new(),
            named_variables: Vec::new(),
            errors: Vec::new(),
            notes: Vec::new(),
        };
        proof {
            assert(res@.values =~= Seq::<(Seq<char>, Ty)>::empty());
            assert(res@.types =~= Seq::<(Seq<char>, DeclaredTy)>::empty());
            assert(res@.renames =~= Seq::<(Seq<char>, Seq<char>)>::empty());
            assert(res@.marks =~= Seq::<(nat, nat, nat)>::empty());
            assert(res@.named =~= Seq::<(Seq<char>, Ty)>::empty());
            assert(res@.reports =~= Seq::<Report>::empty());
            assert(res@.notes =~= Seq::<(Seq<char>, Ty)>::empty());
        }
        res
    }

    pub(crate) fn bool_type(&self) -> (res: ArcType)
        ensures
            res@ == self.known().bool_type,
    {
        self.bool_type.clone()
    }

    pub(crate) fn module(&self) -> (res: &Symbol)
        ensures
            res@ == self.known().module,
    {
        &self.module
    }

    /// The errors that were found.
    pub fn errors(&self) -> (res: &Vec<Spanned<TypeError>>)
        ensures
            reports_view(res@) == self@.reports,
    {
        &self.errors
    }

    /// The identifiers that were met, and their types.
    pub fn notes(&self) -> (res: &Vec<(Symbol, ArcType)>)
        ensures
            types_table(res@) == self@.notes,
    {
        &self.notes
    }

    /// Forgets the variables, the values in scope and the identifiers that were met.
    pub(crate) fn clear(&mut self)
        ensures
            final(self).known() == old(self).known(),
            final(self)@ == (Inferred {
                subst: Seq::empty(),
                levels: Seq::empty(),
                values: Seq::empty(),
                notes: Seq::empty(),
                ..old(self)@
            }),
    {
        self.subs = Substitution::new();
        self.environment.stack = Vec::new();
        self.notes = Vec::new();
        assert(self@.values =~= Seq::<(Seq<char>, Ty)>::empty());
        assert(self@.notes =~= Seq::<(Seq<char>, Ty)>::empty());
    }

    /// How many variables there are.
    pub(crate) fn var_count(&self) -> (res: usize)
        ensures
            res == self@.subst.len(),
    {
        self.subs.len()
    }

    /// How many identifiers were met.
    pub(crate) fn note_count(&self) -> (res: usize)
        ensures
            res == self@.notes.len(),
    {
        self.notes.len()
    }

    /// A copy of the identifiers that were met, and their types.
    pub(crate) fn copy_notes(&self) -> (res: Vec<(Symbol, ArcType)>)
        ensures
            types_table(res@) == self@.notes,
            res@.len() == self@.notes.len(),
    {
        let mut res: Vec<(Symbol, ArcType)> = Vec::new();
        let mut i: usize = 0;
        while i < self.notes.len()
            invariant
                i <= self.notes@.len(),
                res@.len() == i,
                forall|j: int|
                    0 <= j < i ==> (#[trigger] res@[j]).0@ == self.notes@[j].0@ && res@[j].1@
                        == self.notes@[j].1@,
            decreases self.notes@.len() - i,
        {
            res.push((self.notes[i].0.clone(), self.notes[i].1.clone()));
            i += 1;
        }
        assert(types_table(res@) =~= self@.notes);
        res
    }

    /// The name and the type of the identifier `at`.
    pub(crate) fn note_at(&self, at: usize) -> (res: (Symbol, ArcType))
        requires
            at < self@.notes.len(),
        ensures
            (res.0@, res.1@) == self@.notes[at as int],
    {
        (self.notes[at].0.clone(), self.notes[at].1.clone())
    }

    pub(crate) fn new_var(&mut self) -> (res: ArcType)
        requires
            fresh(old(self)@) is Some,
        ensures
            final(self).known() == old(self).known(),
            fresh(old(self)@) == Some((final(self)@, res@)),
    {
        self.subs.new_var()
    }

    pub(crate) fn stack_var(&mut self, id: Symbol, typ: ArcType)
        ensures
            final(self).known() == old(self).known(),
            final(self)@ == old(self)@.bind(id@, typ@),
    {
        self.environment.stack.push((id, typ));
        assert(self@.values =~= old(self)@.values.push((id@, typ@)));
    }

    /// How many values are in scope.
    pub(crate) fn value_count(&self) -> (res: usize)
        ensures
            res == self@.values.len(),
    {
        self.environment.stack.len()
    }

    /// The type of the value `i` in scope.
    pub(crate) fn value_type(&self, i: usize) -> (res: ArcType)
        requires
            i < self@.values.len(),
        ensures
            res@ == self@.values[i as int].1,
    {
        self.environment.stack[i].1.clone()
    }

    /// Where `name` is bound last among the first `n` values in scope.
    pub(crate) fn value_before(&self, name: &Symbol, n: usize) -> (res: Option<usize>)
        requires
            n <= self@.values.len(),
        ensures
            match res {
                Some(i) => last_at(self@.values, name@, n as nat) == Some(i as int) && i < n,
                None => last_at(self@.values, name@, n as nat) is None,
            },
    {
        find_before(&self.environment.stack, name, n)
    }

    /// Gives the value `i` in scope another type.
    pub(crate) fn set_value_type(&mut self, i: usize, typ: ArcType)
        requires
            i < old(self)@.values.len(),
        ensures
            final(self).known() == old(self).known(),
            final(self)@ == (Inferred {
                values: old(self)@.values.update(
                    i as int,
                    (old(self)@.values[i as int].0, typ@),
                ),
                ..old(self)@
            }),
    {
        let name = self.environment.stack[i].0.clone();
        self.environment.stack.set(i, (name, typ));
        assert(self@.values =~= old(self)@.values.update(
            i as int,
            (old(self)@.values[i as int].0, typ@),
        ));
    }

    /// Forgets the values in scope.
    pub(crate) fn forget_values(&mut self)
        ensures
            final(self).known() == old(self).known(),
            final(self)@ == (Inferred { values: Seq::empty(), ..old(self)@ }),
    {
        self.environment.stack = Vec::new();
        assert(self@.values =~= Seq::<(Seq<char>, Ty)>::empty());
    }

    /// The type that is known of `id` from outside.
    pub(crate) fn outer_type(&self, id: &Symbol) -> (res: Option<ArcType>)
        ensures
            match res {
                Some(typ) => self.known().types.dom().contains(id@) && self.known().types[id@]
                    == typ@,
                None => !self.known().types.dom().contains(id@),
            },
    {
        self.environment.environment.find_type(id)
    }

    /// `typ` with its variables replaced by what they are bound to.
    pub(crate) fn settle_type(&self, typ: &ArcType) -> (res: ArcType)
        requires
            settled(self@.subst, Seq::empty(), typ@) is Some,
        ensures
            settled(self@.subst, Seq::empty(), typ@) == Some(res@),
    {
        settle_variables(&self.subs, typ)
    }

    pub(crate) fn skip(&mut self, n: usize)
        ensures
            final(self).known() == old(self).known(),
            final(self)@ == old(self)@.skip(n as nat),
    {
        let mut i: usize = 0;
        assert(self@.notes =~= old(self)@.skip(0).notes);
        while i < n
            invariant
                i <= n,
                self.known() == old(self).known(),
                self@ == old(self)@.skip(i as nat),
            decreases n - i,
        {
            self.note(Symbol::new("".to_owned()), Type::hole());
            i += 1;
            assert(self@.notes =~= old(self)@.skip(i as nat).notes);
        }
    }

    pub(crate) fn note(&mut self, id: Symbol, typ: ArcType)
        ensures
            final(self).known() == old(self).known(),
            final(self)@ == old(self)@.note(id@, typ@),
    {
        self.notes.push((id, typ));
        assert(self@.notes =~= old(self)@.notes.push((id@, typ@)));
    }

    /// Gives what was noted last another name.
    pub(crate) fn rename_last(&mut self, id: &Symbol)
        ensures
            final(self).known() == old(self).known(),
            final(self)@ == if old(self)@.notes.len() > 0 {
                Inferred {
                    notes: old(self)@.notes.update(
                        old(self)@.notes.len() - 1,
                        (id@, old(self)@.notes.last().1),
                    ),
                    ..old(self)@
                }
            } else {
                old(self)@
            },
    {
        let len: usize = self.notes.len();
        assert(self@.notes.len() == len);
        if len > 0 {
            let typ = self.notes[len - 1].1.clone();
            assert(self@.notes.last() == (self.notes@[len - 1].0@, self.notes@[len - 1].1@));
            self.notes.set(len - 1, (id.clone(), typ));
            assert(self@.notes =~= old(self)@.notes.update(len - 1, (id@, typ@)));
        }
    }

    pub(crate) fn report(&mut self, span: Span, error: TypeError)
        ensures
            final(self).known() == old(self).known(),
            final(self)@ == old(self)@.report(span, error@),
    {
        self.errors.push(Spanned { span, value: error });
        assert(self@.reports =~= old(self)@.reports.push(Report { span, fault: error@ }));
    }

    pub(crate) fn rename_to(&mut self, original: Symbol, new: Symbol)
        ensures
            final(self).known() == old(self).known(),
            final(self)@ == (Inferred {
                renames: old(self)@.renames.push((original@, new@)),
                ..old(self)@
            }),
    {
        self.original_symbols.push((original, new));
        assert(self@.renames =~= old(self)@.renames.push((original@, new@)));
    }

    pub(crate) fn enter_scope(&mut self)
        ensures
            final(self).known() == old(self).known(),
            final(self)@ == old(self)@.enter(),
    {
        self.marks.push(
            (
                self.environment.stack.len(),
                self.environment.stack_types.len(),
                self.original_symbols.len(),
            ),
        );
        assert(self@.marks =~= old(self)@.enter().marks);
    }

    pub(crate) fn exit_scope(&mut self)
        ensures
            final(self).known() == old(self).known(),
            final(self)@ == old(self)@.exit(),
    {
        match self.marks.pop() {
            Some((values, types, renames)) => {
                self.environment.stack.truncate(values);
                self.environment.stack_types.truncate(types);
                self.original_symbols.truncate(renames);
                proof {
                    assert(old(self)@.marks.last() == (values as nat, types as nat, renames as nat));
                    assert(self@.values =~= cut(old(self)@.values, values as nat));
                    assert(self@.types =~= cut(old(self)@.types, types as nat));
                    assert(self@.renames =~= cut(old(self)@.renames, renames as nat));
                    assert(self@.marks =~= old(self)@.marks.drop_last());
                }
            },
            None => {},
        }
    }

    /// What `name` was renamed to.
    pub(crate) fn current_name(&self, name: &Symbol) -> (res: Symbol)
        ensures
            res@ == crate::typecheck::settle::renamed(self@.renames, name@),
    {
        crate::typecheck::settle::rename(&self.original_symbols, name)
    }

    /// `typ` with its names replaced by what they were renamed to.
    pub(crate) fn refresh(&self, typ: &ArcType) -> (res: ArcType)
        ensures
            res@ == crate::typecheck::settle::refreshed(self@.renames, typ@),
    {
        crate::typecheck::settle::refresh_symbols_in_type(&self.original_symbols, typ)
    }
}

proof fn settled_faults_before(subst: crate::substitution::Subst, all: Seq<Fault>, m: nat, n: nat)
    requires
        m <= n <= all.len(),
        settled_faults(subst, all, n) is Some,
    ensures
        settled_faults(subst, all, m) is Some,
    decreases n,
{
    if m < n {
        settled_faults_before(subst, all, m, (n - 1) as nat);
    }
}

/// `errors` with their variables replaced by what they are bound to.
fn apply_subs(subs: &Substitution, errors: Vec<unify_type::Error>) -> (res: Vec<unify_type::Error>)
    requires
        settled_faults(subs@, faults(errors@), errors@.len()) is Some,
    ensures
        settled_faults(subs@, faults(errors@), errors@.len()) == Some(faults(res@)),
{
    let ghost all = faults(errors@);
    let ghost given = errors@;
    let mut errors = errors;
    let mut res: Vec<unify_type::Error> = Vec::new();
    let len: usize = errors.len();
    let mut i: usize = 0;
    assert(faults(res@) =~= Seq::<Fault>::empty());
    assert(errors@ =~= given.skip(0));
    while i < len
        invariant
            i <= len == given.len() == all.len(),
            all == faults(given),
            errors@ == given.skip(i as int),
            settled_faults(subs@, all, len as nat) is Some,
            settled_faults(subs@, all, i as nat) == Some(faults(res@)),
        decreases len - i,
    {
        proof {
            settled_faults_before(subs@, all, (i + 1) as nat, len as nat);
        }
        let ghost before = res@;
        let error = errors.remove(0);
        assert(errors@ =~= given.skip(i + 1));
        assert(all[i as int] == error@);
        let new = match error {
            unify_type::Error::TypeMismatch(expected, actual) => unify_type::Error::TypeMismatch(
                settle_variables(subs, &expected),
                settle_variables(subs, &actual),
            ),
            unify_type::Error::Occurs(var, typ) => unify_type::Error::Occurs(
                var,
                settle_variables(subs, &typ),
            ),
            unify_type::Error::Other(err) => unify_type::Error::Other(err),
        };
        res.push(new);
        assert(faults(res@) =~= faults(before).push(new@));
        i += 1;
    }
    res
}

impl<'a, E: TypeEnv> Typecheck<'a, E> {
    pub(crate) fn unify(&mut self, expected: &ArcType, actual: ArcType) -> (res: Result<
        ArcType,
        TypeError,
    >)
        requires
            unify(old(self).known(), old(self)@, expected@, actual@) is Some,
        ensures
            final(self).known() == old(self).known(),
            step_is(
                res,
                final(self)@,
                unify(old(self).known(), old(self)@, expected@, actual@),
            ),
    {
        let mut subs = Substitution::new();
        std::mem::swap(&mut subs, &mut self.subs);
        let mut state = State::new(&self.environment, subs);
        assert(crate::unify_type::no_faults(state@) =~= to_unify(old(self)@));
        let result = unify_type::unify(&mut state, expected, &actual);
        self.subs = state.into_substitution();
        match result {
            Ok(typ) => Ok(settle_variables(&self.subs, &typ)),
            Err(errors) => Err(
                TypeError::Unification(
                    settle_variables(&self.subs, expected),
                    settle_variables(&self.subs, &actual),
                    apply_subs(&self.subs, errors),
                ),
            ),
        }
    }
}

/// Adds the parameters in `typ` to `seen`.
fn collect_generics(typ: &ArcType, seen: &mut Vec<Symbol>)
    ensures
        symbols_view(final(seen)@) == generics_in(typ@, symbols_view(old(seen)@)),
    decreases typ@, 0nat,
{
    proof {
        parts_decrease(typ@);
    }
    match typ.as_type() {
        Type::Generic(gen) => {
            if !is_listed(seen, &gen.id) {
                seen.push(gen.id.clone());
                assert(symbols_view(seen@) =~= symbols_view(old(seen)@).push(gen.id@));
            }
        },
        Type::Forall(_, x) | Type::Record(x) | Type::Variant(x) | Type::Effect(x) => {
            collect_generics(x, seen);
        },
        Type::Function(_, arg, ret) => {
            collect_generics(arg, seen);
            collect_generics(ret, seen);
        },
        Type::App(f, args) => {
            collect_generics(f, seen);
            let ghost start = symbols_view(seen@);
            let ghost all = types_view(args@);
            let mut i: usize = 0;
            while i < args.len()
                invariant
                    i <= args@.len(),
                    all == types_view(args@),
                    decreases_to!(typ@ => all),
                    symbols_view(seen@) == generics_in_all(all, i as nat, start),
                decreases args@.len() - i,
            {
                assert(decreases_to!(all => all[i as int]));
                collect_generics(&args[i], seen);
                i += 1;
            }
        },
        Type::ExtendRow { fields, rest } => {
            let ghost start = symbols_view(seen@);
            let ghost all = fields_view(fields@);
            let mut i: usize = 0;
            while i < fields.len()
                invariant
                    i <= fields@.len(),
                    all == fields_view(fields@),
                    decreases_to!(typ@ => all),
                    symbols_view(seen@) == generics_in_fields(all, i as nat, start),
                decreases fields@.len() - i,
            {
                assert(decreases_to!(all => all[i as int]));
                assert(decreases_to!(all[i as int] => all[i as int].typ));
                collect_generics(&fields[i].typ, seen);
                i += 1;
            }
            collect_generics(rest, seen);
        },
        Type::ExtendTypeRow { types: _, rest } => {
            collect_generics(rest, seen);
        },
        _ => {},
    }
}

pub(crate) fn is_listed(names: &Vec<Symbol>, name: &Symbol) -> (res: bool)
    ensures
        res == symbols_view(names@).contains(name@),
{
    let mut i: usize = 0;
    while i < names.len()
        invariant
            i <= names@.len(),
            forall|j: int| 0 <= j < i ==> (#[trigger] names@[j])@ != name@,
        decreases names@.len() - i,
    {
        if names[i] == *name {
            assert(symbols_view(names@)[i as int] == name@);
            return true;
        }
        i += 1;
    }
    proof {
        if symbols_view(names@).contains(name@) {
            let j = choose|j: int| 0 <= j < names@.len() && symbols_view(names@)[j] == name@;
            assert(names@[j]@ == name@);
        }
    }
    false
}

/// Adds the variables in `typ` to `seen`.
fn collect_variables(typ: &ArcType, seen: &mut Vec<TypeVariable>)
    ensures
        final(seen)@ == variables_in(typ@, old(seen)@),
    decreases typ@, 0nat,
{
    proof {
        parts_decrease(typ@);
    }
    match typ.as_type() {
        Type::Variable(var) => {
            seen.push(var.clone());
        },
        Type::Forall(_, x) | Type::Record(x) | Type::Variant(x) | Type::Effect(x) => {
            collect_variables(x, seen);
        },
        Type::Function(_, arg, ret) => {
            collect_variables(arg, seen);
            collect_variables(ret, seen);
        },
        Type::App(f, args) => {
            collect_variables(f, seen);
            let ghost start = seen@;
            let ghost all = types_view(args@);
            let mut i: usize = 0;
            while i < args.len()
                invariant
                    i <= args@.len(),
                    all == types_view(args@),
                    decreases_to!(typ@ => all),
                    seen@ == variables_in_all(all, i as nat, start),
                decreases args@.len() - i,
            {
                assert(decreases_to!(all => all[i as int]));
                collect_variables(&args[i], seen);
                i += 1;
            }
        },
        Type::ExtendRow { fields, rest } => {
            let ghost start = seen@;
            let ghost all = fields_view(fields@);
            let mut i: usize = 0;
            while i < fields.len()
                invariant
                    i <= fields@.len(),
                    all == fields_view(fields@),
                    decreases_to!(typ@ => all),
                    seen@ == variables_in_fields(all, i as nat, start),
                decreases fields@.len() - i,
            {
                assert(decreases_to!(all => all[i as int]));
                assert(decreases_to!(all[i as int] => all[i as int].typ));
                collect_variables(&fields[i].typ, seen);
                i += 1;
            }
            collect_variables(rest, seen);
        },
        Type::ExtendTypeRow { types: _, rest } => {
            collect_variables(rest, seen);
        },
        _ => {},
    }
}

proof fn named_all_before(s: Inferred, names: Seq<Seq<char>>, m: nat, n: nat)
    requires
        m <= n <= names.len(),
        named_all(s, names, n) is Some,
    ensures
        named_all(s, names, m) is Some,
    decreases n,
{
    if m < n {
        named_all_before(s, names, m, (n - 1) as nat);
    }
}

proof fn quantified_before(
    s: Inferred,
    level: u32,
    prefix: Seq<char>,
    vars: Seq<TypeVariable>,
    m: nat,
    n: nat,
)
    requires
        m <= n <= vars.len(),
        quantified(s, level, prefix, vars, n) is Some,
    ensures
        quantified(s, level, prefix, vars, m) is Some,
    decreases n,
{
    if m < n {
        quantified_before(s, level, prefix, vars, m, (n - 1) as nat);
    }
}

/// The map that `table` stands for.
fn to_map(table: &Vec<(Symbol, ArcType)>) -> (res: SymbolMap<ArcType>)
    ensures
        map_view(res@) == table_map(types_table(table@)),
{
    let mut res: SymbolMap<ArcType> = SymbolMap::new();
    let ghost all = types_table(table@);
    let mut i: usize = 0;
    assert(map_view(res@) =~= table_map(all.take(0)));
    while i < table.len()
        invariant
            i <= table@.len(),
            all == types_table(table@),
            map_view(res@) == table_map(all.take(i as int)),
        decreases table@.len() - i,
    {
        let ghost before = res@;
        res.insert(table[i].0.clone(), table[i].1.clone());
        proof {
            let more = all.take(i + 1);
            assert(more.drop_last() =~= all.take(i as int));
            assert(more.last() == all[i as int]);
            assert(map_view(res@) =~= map_view(before).insert(all[i as int].0, all[i as int].1));
        }
        i += 1;
    }
    assert(all.take(i as int) =~= all);
    res
}

/// Whether `typ` is a record that has all of `fields`.
fn record_has(typ: &ArcType, fields: &Vec<Symbol>) -> (res: bool)
    ensures
        res == has_fields(typ@, symbols_view(fields@)),
{
    match typ.as_type() {
        Type::Record(_) => {},
        _ => {
            return false;
        },
    }
    let ghost wanted = symbols_view(fields@);
    let ghost all = row_fields(typ@);
    let mut i: usize = 0;
    while i < fields.len()
        invariant
            i <= fields@.len(),
            wanted == symbols_view(fields@),
            all == row_fields(typ@),
            forall|j: int| 0 <= j < i ==> has_field_named(all, #[trigger] wanted[j]),
        decreases fields@.len() - i,
    {
        match field_of(typ, &fields[i]) {
            Some(_) => {
                proof {
                    field_type_is_there(all, wanted[i as int], 0);
                }
            },
            None => {
                proof {
                    field_type_is_there(all, wanted[i as int], 0);
                    assert(!has_field_named(all, wanted[i as int]));
                }
                return false;
            },
        }
        i += 1;
    }
    true
}

proof fn field_type_is_there(fields: Seq<FieldTy>, name: Seq<char>, i: int)
    requires
        0 <= i <= fields.len(),
    ensures
        field_type(fields, name, i) is Some ==> has_field_named(fields, name),
        field_type(fields, name, i) is None ==> forall|j: int|
            i <= j < fields.len() ==> (#[trigger] fields[j]).name != name,
    decreases fields.len() - i,
{
    if i < fields.len() {
        if fields[i].name != name {
            field_type_is_there(fields, name, i + 1);
        }
    }
}

/// The type of the field `name` of `typ`.
pub(crate) fn field_of(typ: &ArcType, name: &Symbol) -> (res: Option<ArcType>)
    ensures
        opt_view(res) == field_type(row_fields(typ@), name@, 0),
{
    let ghost all = row_fields(typ@);
    let mut iter = row_iter(typ);
    let ghost mut i: int = 0;
    assert(all.skip(0) =~= all);
    loop
        invariant
            iter.wf(),
            0 <= i <= all.len(),
            all == row_fields(typ@),
            iter@ == all.skip(i),
            field_type(all, name@, 0) == field_type(all, name@, i),
        decreases iter@.len(),
    {
        match iter.next() {
            Some(field) => {
                proof {
                    assert(all.skip(i)[0] == all[i]);
                    assert(all.skip(i).drop_first() =~= all.skip(i + 1));
                }
                if field.name == *name {
                    return Some(field.typ.clone());
                }
                proof {
                    i = i + 1;
                }
            },
            None => {
                return None;
            },
        }
    }
}

impl<'a, E: TypeEnv> Typecheck<'a, E> {
    fn name_all(&mut self, names: &Vec<Symbol>)
        requires
            named_all(old(self)@, symbols_view(names@), names@.len()) is Some,
        ensures
            final(self).known() == old(self).known(),
            named_all(old(self)@, symbols_view(names@), names@.len()) == Some(final(self)@),
    {
        let ghost s = self@;
        let ghost all = symbols_view(names@);
        let mut i: usize = 0;
        while i < names.len()
            invariant
                i <= names@.len(),
                all == symbols_view(names@),
                self.known() == old(self).known(),
                named_all(s, all, names@.len()) is Some,
                named_all(s, all, i as nat) == Some(self@),
            decreases names@.len() - i,
        {
            proof {
                named_all_before(s, all, (i + 1) as nat, names@.len());
            }
            if latest_type(&self.named_variables, &names[i]).is_none() {
                let var = self.new_var();
                let ghost before = self@;
                self.named_variables.push((names[i].clone(), var));
                assert(self@.named =~= before.named.push((all[i as int], var@)));
            }
            i += 1;
        }
    }

    /// `typ` with its parameters replaced by variables, those that were instantiated before by the
    /// same ones.
    pub(crate) fn instantiate_more(&mut self, typ: &ArcType) -> (res: ArcType)
        requires
            instantiated_more(old(self)@, typ@) is Some,
        ensures
            final(self).known() == old(self).known(),
            instantiated_more(old(self)@, typ@) == Some((final(self)@, res@)),
    {
        let mut names: Vec<Symbol> = Vec::new();
        assert(symbols_view(names@) =~= Seq::<Seq<char>>::empty());
        collect_generics(typ, &mut names);
        assert(symbols_view(names@).len() == names@.len());
        self.name_all(&names);
        let map = to_map(&self.named_variables);
        match typ.replace_generics(&map) {
            Some(new) => new,
            None => typ.clone(),
        }
    }

    /// `typ` with its parameters replaced by new variables.
    pub(crate) fn instantiate(&mut self, typ: &ArcType) -> (res: ArcType)
        requires
            instantiated(old(self)@, typ@) is Some,
        ensures
            final(self).known() == old(self).known(),
            instantiated(old(self)@, typ@) == Some((final(self)@, res@)),
    {
        self.named_variables = Vec::new();
        assert(self@.named =~= Seq::<(Seq<char>, Ty)>::empty());
        self.instantiate_more(typ)
    }

    pub(crate) fn find(&mut self, id: &Symbol) -> (res: Result<ArcType, TypeError>)
        requires
            found(old(self).known(), old(self)@, id@) is Some,
        ensures
            final(self).known() == old(self).known(),
            step_is(res, final(self)@, found(old(self).known(), old(self)@, id@)),
    {
        let bound = match latest_type(&self.environment.stack, id) {
            Some(typ) => Some(typ.clone()),
            None => self.environment.environment.find_type(id),
        };
        match bound {
            None => Err(TypeError::UndefinedVariable(id.clone())),
            Some(typ) => {
                let typ = settle_variables(&self.subs, &typ);
                Ok(self.instantiate(&typ))
            },
        }
    }

    pub(crate) fn find_record(&self, fields: &Vec<Symbol>) -> (res: Option<(ArcType, ArcType)>)
        ensures
            match res {
                Some((typ, actual)) => record_with(self.known(), self@, symbols_view(fields@))
                    == Some((typ@, actual@)),
                None => record_with(self.known(), self@, symbols_view(fields@)) is None,
            },
    {
        let ghost wanted = symbols_view(fields@);
        let types = &self.environment.stack_types;
        let mut i: usize = 0;
        while i < types.len()
            invariant
                i <= types@.len(),
                declared_table(types@) == self@.types,
                wanted == symbols_view(fields@),
                local_record(self@.types, wanted, 0) == local_record(
                    self@.types,
                    wanted,
                    i as int,
                ),
            decreases types@.len() - i,
        {
            assert(self@.types[i as int].1 == types@[i as int].1@);
            if record_has(&types[i].1.actual, fields) {
                return Some((types[i].1.typ.clone(), types[i].1.actual.clone()));
            }
            i += 1;
        }
        let ghost records = records_view(self.records@);
        let mut i: usize = 0;
        while i < self.records.len()
            invariant
                i <= self.records@.len(),
                records == records_view(self.records@),
                records == self.known().records,
                wanted == symbols_view(fields@),
                local_record(self@.types, wanted, 0) is None,
                outer_record(records, wanted, 0) == outer_record(records, wanted, i as int),
            decreases self.records@.len() - i,
        {
            assert(records[i as int].1 == self.records@[i as int].1@);
            if record_has(&self.records[i].1, fields) {
                return Some((self.records[i].0.clone(), self.records[i].1.clone()));
            }
            i += 1;
        }
        None
    }

    pub(crate) fn find_type_info(&self, id: &Symbol) -> (res: Option<AliasRef>)
        ensures
            match res {
                Some(alias) => type_info(self.known(), self@, id@) == Some(alias@),
                None => type_info(self.known(), self@, id@) is None,
            },
    {
        self.environment.find_type_info(id)
    }

    /// Whether the type `id` is in scope.
    pub(crate) fn is_declared(&self, id: &Symbol) -> (res: bool)
        ensures
            res == (latest(self@.types, id@) is Some),
    {
        latest_declared(&self.environment.stack_types, id).is_some()
    }

    pub(crate) fn stack_type(&mut self, id: Symbol, declared: Declared)
        ensures
            final(self).known() == old(self).known(),
            final(self)@ == declare(old(self)@, id@, declared@),
    {
        // Insert variant constructors into the local scope
        if let Type::Variant(_) = declared.actual.as_type() {
            self.bind_constructors(&declared.actual);
        }
        let ghost with_ctors = self@;
        if let Some(own) = own_ident(&declared.typ) {
            // Both the name of the type in this module and its global name are in scope.
            // Without this aliases may not be traversed properly
            self.environment.stack_types.push((own, declared.clone()));
            assert(self@.types =~= with_ctors.types.push((own@, declared@)));
        }
        let ghost own = self@.types;
        self.environment.stack_types.push((id, declared));
        assert(self@.types =~= own.push((id@, declared@)));
    }

    fn bind_constructors(&mut self, typ: &ArcType)
        ensures
            final(self).known() == old(self).known(),
            final(self)@ == bind_all(old(self)@, row_fields(typ@), row_fields(typ@).len()),
    {
        let ghost all = row_fields(typ@);
        let mut iter = row_iter(typ);
        let ghost mut i: int = 0;
        assert(all.skip(0) =~= all);
        loop
            invariant
                iter.wf(),
                0 <= i <= all.len(),
                all == row_fields(typ@),
                iter@ == all.skip(i),
                self.known() == old(self).known(),
                self@ == bind_all(old(self)@, all, i as nat),
            decreases iter@.len(),
        {
            match iter.next() {
                Some(field) => {
                    proof {
                        assert(all.skip(i)[0] == all[i]);
                        assert(all.skip(i).drop_first() =~= all.skip(i + 1));
                        i = i + 1;
                    }
                    self.stack_var(field.name.clone(), field.typ.clone());
                },
                None => {
                    return;
                },
            }
        }
    }

    fn greatest_name(&self) -> (res: String)
        ensures
            res@ == greatest_name(self@.named, self@.named.len()),
    {
        let mut res: String = "a".to_owned();
        let mut i: usize = 0;
        while i < self.named_variables.len()
            invariant
                i <= self.named_variables@.len(),
                self@.named == types_table(self.named_variables@),
                res@ == greatest_name(self@.named, i as nat),
            decreases self.named_variables@.len() - i,
        {
            assert(self@.named[i as int].0 == self.named_variables@[i as int].0@);
            if is_before(res.as_str(), self.named_variables[i].0.as_str()) {
                res = self.named_variables[i].0.as_str().to_owned();
            }
            i += 1;
        }
        res
    }

    fn quantify(&mut self, level: u32, prefix: &str, vars: &Vec<TypeVariable>)
        requires
            quantified(old(self)@, level, prefix@, vars@, vars@.len()) is Some,
        ensures
            final(self).known() == old(self).known(),
            quantified(old(self)@, level, prefix@, vars@, vars@.len()) matches Some((s, _))
                && final(self)@ == s,
    {
        let ghost s = self@;
        let mut count: u64 = 0;
        let mut i: usize = 0;
        while i < vars.len()
            invariant
                i <= vars@.len(),
                self.known() == old(self).known(),
                quantified(s, level, prefix@, vars@, vars@.len()) is Some,
                quantified(s, level, prefix@, vars@, i as nat) == Some((self@, count as nat)),
            decreases vars@.len() - i,
        {
            proof {
                quantified_before(s, level, prefix@, vars@, (i + 1) as nat, vars@.len());
            }
            let var = &vars[i];
            if self.subs.find_type_for_var(var.id).is_none() && self.subs.level(var.id) > level {
                let id = Symbol::new(join(prefix, decimal_string(count).as_str()));
                let gen = Type::generic(Generic::new(id.clone(), var.kind.clone()));
                let ghost before = self@;
                self.subs.bind(var.id, gen.clone());
                self.named_variables.push((id, gen));
                assert(self@.named =~= before.named.push((id@, gen@)));
                count += 1;
            }
            i += 1;
        }
    }

    /// `typ` with its variables replaced. Those above `level` that are not bound become parameters.
    pub(crate) fn finish_type(&mut self, level: u32, typ: &ArcType) -> (res: ArcType)
        requires
            finished(old(self)@, level, typ@) is Some,
        ensures
            final(self).known() == old(self).known(),
            finished(old(self)@, level, typ@) == Some((final(self)@, res@)),
    {
        let prefix = self.greatest_name();
        let typ = settle_variables(&self.subs, typ);
        let mut vars: Vec<TypeVariable> = Vec::new();
        collect_variables(&typ, &mut vars);
        self.quantify(level, prefix.as_str(), &vars);
        settle_variables(&self.subs, &typ)
    }
}

/// The name that a type applies.
fn own_ident(typ: &ArcType) -> (res: Option<Symbol>)
    ensures
        match res {
            Some(id) => own_name(typ@) == Some(id@),
            None => own_name(typ@) is None,
        },
    decreases typ@,
{
    match typ.as_type() {
        Type::Ident(id) => Some(id.clone()),
        Type::App(f, _) => {
            proof {
                parts_decrease(typ@);
            }
            own_ident(f)
        },
        _ => None,
    }
}

proof fn finished_values_before(s: Inferred, level: u32, m: nat, n: nat)
    requires
        m <= n <= s.values.len(),
        finished_values(s, level, n) is Some,
    ensures
        finished_values(s, level, m) is Some,
    decreases n,
{
    if m < n {
        finished_values_before(s, level, m, (n - 1) as nat);
    }
}

proof fn finished_notes_before(s: Inferred, level: u32, from: nat, m: nat, n: nat)
    requires
        m <= n,
        from + n <= s.notes.len(),
        finished_notes(s, level, from, n) is Some,
    ensures
        finished_notes(s, level, from, m) is Some,
    decreases n,
{
    if m < n {
        finished_notes_before(s, level, from, m, (n - 1) as nat);
    }
}

proof fn quantified_keeps(
    s: Inferred,
    level: u32,
    prefix: Seq<char>,
    vars: Seq<TypeVariable>,
    n: nat,
)
    ensures
        quantified(s, level, prefix, vars, n) matches Some((after, _)) ==> after.values == s.values
            && after.notes == s.notes,
    decreases n,
{
    if 0 < n <= vars.len() {
        quantified_keeps(s, level, prefix, vars, (n - 1) as nat);
    }
}

pub(crate) proof fn finished_keeps(s: Inferred, level: u32, t: Ty)
    ensures
        finished(s, level, t) matches Some((after, _)) ==> after.values == s.values && after.notes
            == s.notes,
{
    let prefix = greatest_name(s.named, s.named.len());
    if let Some(u) = settled(s.subst, Seq::empty(), t) {
        let vars = variables_in(u, Seq::empty());
        quantified_keeps(s, level, prefix, vars, vars.len());
    }
}

impl<'a, E: TypeEnv> Typecheck<'a, E> {
    fn finish_values(&mut self, level: u32)
        requires
            finished_values(old(self)@, level, old(self)@.values.len()) is Some,
        ensures
            final(self).known() == old(self).known(),
            finished_values(old(self)@, level, old(self)@.values.len()) == Some(final(self)@),
    {
        let ghost s = self@;
        let len: usize = self.environment.stack.len();
        let mut i: usize = 0;
        while i < len
            invariant
                i <= len == s.values.len(),
                self@.values.len() == len,
                self.known() == old(self).known(),
                finished_values(s, level, len as nat) is Some,
                finished_values(s, level, i as nat) == Some(self@),
            decreases len - i,
        {
            let ghost before = self@;
            proof {
                finished_values_before(s, level, (i + 1) as nat, len as nat);
                finished_keeps(self@, level, self@.values[i as int].1);
                assert(self@.values[i as int].1 == self.environment.stack@[i as int].1@);
            }
            let typ = self.environment.stack[i].1.clone();
            let new = self.finish_type(level, &typ);
            let name = self.environment.stack[i].0.clone();
            self.environment.stack.set(i, (name, new));
            assert(self@.values =~= before.values.update(
                i as int,
                (before.values[i as int].0, new@),
            ));
            i += 1;
        }
    }

    fn finish_notes(&mut self, level: u32, from: usize)
        requires
            from <= old(self)@.notes.len(),
            finished_notes(
                old(self)@,
                level,
                from as nat,
                (old(self)@.notes.len() - from) as nat,
            ) is Some,
        ensures
            final(self).known() == old(self).known(),
            finished_notes(old(self)@, level, from as nat, (old(self)@.notes.len() - from) as nat)
                == Some(final(self)@),
    {
        let ghost s = self@;
        let len: usize = self.notes.len();
        let mut i: usize = from;
        while i < len
            invariant
                from <= i <= len == s.notes.len(),
                self@.notes.len() == len,
                self.known() == old(self).known(),
                finished_notes(s, level, from as nat, (len - from) as nat) is Some,
                finished_notes(s, level, from as nat, (i - from) as nat) == Some(self@),
            decreases len - i,
        {
            let ghost before = self@;
            proof {
                finished_notes_before(
                    s,
                    level,
                    from as nat,
                    (i + 1 - from) as nat,
                    (len - from) as nat,
                );
                finished_keeps(self@, level, self@.notes[i as int].1);
                assert(self@.notes[i as int].1 == self.notes@[i as int].1@);
            }
            let typ = self.notes[i].1.clone();
            let new = self.finish_type(level, &typ);
            let name = self.notes[i].0.clone();
            self.notes.set(i, (name, new));
            assert(self@.notes =~= before.notes.update(
                i as int,
                (before.notes[i as int].0, new@),
            ));
            i += 1;
        }
    }

    /// The variables above `level` become parameters, in the types of the values in scope and of
    /// the identifiers behind the first `from`.
    pub(crate) fn generalize_variables(&mut self, level: u32, from: usize)
        requires
            generalized(old(self)@, level, from as nat) is Some,
        ensures
            final(self).known() == old(self).known(),
            generalized(old(self)@, level, from as nat) == Some(final(self)@),
    {
        self.finish_values(level);
        self.finish_notes(level, from);
    }

    /// What the variables in `typ` stand for at its top.
    pub(crate) fn actual(&self, typ: &ArcType) -> (res: ArcType)
        requires
            crate::substitution::actual(self@.subst, typ@) is Some,
        ensures
            crate::substitution::actual(self@.subst, typ@) == Some(res@),
    {
        self.subs.actual(typ).clone()
    }

    pub(crate) fn remove_alias(&self, typ: &ArcType) -> (res: ArcType)
        ensures
            res@ == new_or(
                crate::resolve::expanded(self@.infos(self.known()), typ@),
                typ@,
            ),
    {
        match crate::resolve::remove_alias(&self.environment, typ) {
            Ok(Some(new)) => new,
            _ => typ.clone(),
        }
    }

    pub(crate) fn remove_aliases(&self, typ: &ArcType) -> (res: ArcType)
        requires
            resolved(self@.infos(self.known()), typ@) is Some,
        ensures
            resolved(self@.infos(self.known()), typ@) == Some(res@),
    {
        remove_aliases(&self.environment, typ.clone())
    }

    /// The next argument of the function type `typ`: the argument and what is left of the type, or
    /// what is left alone where nothing is known of the argument.
    pub(crate) fn next_argument(&self, typ: &ArcType) -> (res: Option<(Option<ArcType>, ArcType)>)
        requires
            next_arg(self@.infos(self.known()), typ@) is Some,
        ensures
            match res {
                Some((Some(arg), rest)) => next_arg(self@.infos(self.known()), typ@) == Some(
                    NextArg::Arg(arg@, rest@),
                ),
                Some((None, rest)) => next_arg(self@.infos(self.known()), typ@) == Some(
                    NextArg::Unknown(rest@),
                ),
                None => next_arg(self@.infos(self.known()), typ@) == Some(NextArg::Stop),
            },
    {
        let typ = self.remove_aliases(typ);
        match typ.as_type() {
            Type::Function(_, arg, ret) => Some((Some(arg.clone()), ret.clone())),
            _ => match peek_alias(&self.environment, &typ) {
                Ok(Some(_)) => None,
                _ => Some((None, typ)),
            },
        }
    }
}

} // verus!
