//! Which of the bindings of a name each of its uses refers to.

use vstd::prelude::*;
use crate::ast::{
    Alternative, Expr, ExprField, Pattern, SpannedExpr, SpannedIdent, SpannedPattern, ValueBinding,
};
use crate::pos::Span;
use crate::resolve::{expanded, TypeEnv};
use crate::symbol::Symbol;
use crate::typecheck::fill::{
    all_places, alt_places, binding_places, ident_places, name_places, pattern_places, places,
    value_places,
};
use crate::typecheck::infer::{all_functions, are_functions, types_declared, types_renamed};
use crate::typecheck::intersect::{names_bound, opt_name, opt_names, pattern_names};
use crate::typecheck::kinds::params_in_scope;
use crate::typecheck::model::{instantiated, unify, Inferred, Known, TypeFault};
use crate::typecheck::pattern::bound_types;
use crate::typecheck::state::{TypeError, Typecheck};
use crate::typecheck::table::last_at;
use crate::types::model::Ty;
use crate::types::walk::new_or;
use crate::types::{ArcType, Type};

verus! {

/// Whether the type of a use is one that a binding of the type `binding` has.
pub open spec fn fits(known: Known, s: Inferred, binding: Ty, used: Ty) -> Option<(Inferred, bool)> {
    match instantiated(s, binding) {
        None => None,
        Some((s, t)) => match unify(known, s, used, t) {
            None => None,
            Some((s, Ok(_))) => Some((s, true)),
            Some((s, Err(_))) => Some((s, false)),
        },
    }
}

/// Whether one of the bindings of `name` fits the type of a use: those among the first `n` values in
/// scope, the innermost first, and what is known of the name from outside.
pub open spec fn fitting(known: Known, s: Inferred, name: Seq<char>, used: Ty, n: nat) -> Option<
    (Inferred, bool),
>
    decreases n,
{
    if n > s.values.len() {
        None
    } else {
        match last_at(s.values, name, n) {
            None => if known.types.dom().contains(name) {
                fits(known, s, known.types[name], used)
            } else {
                Some((s, false))
            },
            Some(i) => match fits(known, s, s.values[i].1, used) {
                None => None,
                Some((s, true)) => Some((s, true)),
                Some((s, false)) => if 0 <= i < n {
                    fitting(known, s, name, used, i as nat)
                } else {
                    None
                },
            },
        }
    }
}

/// There is more than one binding of `name`.
pub open spec fn overloaded(known: Known, s: Inferred, name: Seq<char>) -> bool {
    match last_at(s.values, name, s.values.len()) {
        None => false,
        Some(i) => known.types.dom().contains(name) || last_at(s.values, name, i as nat) is Some,
    }
}

/// A use of `name` with the type `used`. If there is more than one binding one of them has to fit.
pub open spec fn use_resolved(
    known: Known,
    s: Inferred,
    span: Span,
    name: Seq<char>,
    used: Ty,
) -> Option<Inferred> {
    if !overloaded(known, s, name) {
        Some(s)
    } else {
        match fitting(known, s, name, used, s.values.len()) {
            None => None,
            Some((s, true)) => Some(s),
            Some((s, false)) => Some(s.report(span, TypeFault::Rename(name, used))),
        }
    }
}

/// The type of the identifier `at`.
pub open spec fn note_type(s: Inferred, at: int) -> Ty {
    if 0 <= at < s.notes.len() {
        s.notes[at].1
    } else {
        Ty::Hole
    }
}

/// The use at `span` of the identifier `at`.
pub open spec fn noted_use(known: Known, s: Inferred, span: Span, at: int) -> Option<Inferred> {
    if 0 <= at < s.notes.len() {
        use_resolved(known, s, span, s.notes[at].0, s.notes[at].1)
    } else {
        Some(s)
    }
}

/// Binds the first `n` of `names` to the types of the identifiers from `at` on.
pub open spec fn names_scoped(
    s: Inferred,
    names: Seq<Option<Seq<char>>>,
    n: nat,
    at: int,
) -> Inferred
    decreases n,
{
    if n == 0 || n > names.len() {
        s
    } else {
        let before = names_scoped(s, names, (n - 1) as nat, at);
        match names[n - 1] {
            Some(name) => before.bind(name, note_type(before, at + n - 1)),
            None => before,
        }
    }
}

/// The names of `args`.
pub open spec fn arg_names(args: Seq<SpannedIdent>) -> Seq<Option<Seq<char>>> {
    args.map_values(|arg: SpannedIdent| Some(arg.value.name@))
}

/// Binds the names in `pattern` to the types of the identifiers from `at` on.
pub open spec fn pattern_scoped(known: Known, s: Inferred, pattern: SpannedPattern, at: int) -> Option<
    Inferred,
> {
    let names = names_bound(pattern);
    match pattern.value {
        Pattern::Record { typ: _, types, fields: _ } => {
            let t = note_type(s, at);
            let s = names_scoped(s, names, names.len(), at + 1);
            let record = new_or(expanded(s.infos(known), t), t);
            match bound_types(s, record, types@, types@.len()) {
                Some((s, _)) => Some(s),
                None => None,
            }
        },
        _ => Some(names_scoped(s, names, names.len(), at)),
    }
}

/// Resolves the uses of names in `expr`, whose identifiers are those from `at` on.
pub open spec fn uses_resolved(known: Known, s: Inferred, expr: SpannedExpr, at: int) -> Option<
    Inferred,
>
    decreases expr, 0nat,
{
    match expr.value {
        Expr::Ident(_) => noted_use(known, s, expr.span, at),
        Expr::App(func, args) => match uses_resolved(known, s, *func, at) {
            None => None,
            Some(s) => all_resolved(known, s, args@, 0, at + places(*func).len()),
        },
        Expr::Lambda(lambda) => {
            let names = arg_names(lambda.args@);
            match uses_resolved(
                known,
                names_scoped(s.enter(), names, names.len(), at),
                *lambda.body,
                at + lambda.args@.len(),
            ) {
                None => None,
                Some(s) => Some(s.exit()),
            }
        },
        Expr::IfElse(pred, yes, no) => match uses_resolved(known, s, *pred, at) {
            None => None,
            Some(s) => match uses_resolved(known, s, *yes, at + places(*pred).len()) {
                None => None,
                Some(s) => uses_resolved(
                    known,
                    s,
                    *no,
                    at + places(*pred).len() + places(*yes).len(),
                ),
            },
        },
        Expr::Match(value, alts) => match uses_resolved(known, s, *value, at) {
            None => None,
            Some(s) => alts_resolved(known, s, alts@, 0, at + places(*value).len()),
        },
        Expr::Infix(lhs, op, rhs) => match uses_resolved(known, s, *lhs, at) {
            None => None,
            Some(s) => match uses_resolved(known, s, *rhs, at + places(*lhs).len()) {
                None => None,
                Some(s) => noted_use(
                    known,
                    s,
                    op.span,
                    at + places(*lhs).len() + places(*rhs).len(),
                ),
            },
        },
        Expr::Projection(value, _, _) => uses_resolved(known, s, *value, at),
        Expr::Array(_, elems) => all_resolved(known, s, elems@, 0, at),
        Expr::Block(exprs) => all_resolved(known, s, exprs@, 0, at),
        Expr::Record { typ: _, types: _, exprs, base: _ } => fields_resolved(
            known,
            s,
            exprs@,
            0,
            at,
        ),
        Expr::LetBindings(bindings, body) => {
            let s = s.enter();
            let n = bindings@.len();
            let bound = if all_functions(bindings@) {
                match names_resolved(known, s, bindings@, 0, at) {
                    None => None,
                    Some(s) => bindings_resolved(
                        known,
                        s,
                        bindings@,
                        false,
                        0,
                        at + name_places(bindings@, n).len(),
                    ),
                }
            } else {
                bindings_resolved(known, s, bindings@, true, 0, at)
            };
            match bound {
                None => None,
                Some(s) => match uses_resolved(
                    known,
                    s,
                    *body,
                    at + places(expr).len() - places(*body).len(),
                ) {
                    None => None,
                    Some(s) => Some(s.exit()),
                },
            }
        },
        Expr::TypeBindings(bindings, body) => {
            let entered = types_renamed(known, s.enter(), bindings@, bindings@.len());
            match params_in_scope(known, entered, bindings@) {
                None => None,
                Some(params) => {
                    let s = types_declared(
                        known,
                        entered,
                        bindings@,
                        params,
                        body.span,
                        bindings@.len(),
                    );
                    match uses_resolved(known, s, *body, at) {
                        None => None,
                        Some(s) => Some(s.exit()),
                    }
                },
            }
        },
        _ => Some(s),
    }
}

/// Resolves the uses of names in `exprs` from `i` on.
pub open spec fn all_resolved(
    known: Known,
    s: Inferred,
    exprs: Seq<SpannedExpr>,
    i: int,
    at: int,
) -> Option<Inferred>
    decreases exprs, exprs.len() - i,
{
    if i < 0 || i >= exprs.len() {
        Some(s)
    } else {
        match uses_resolved(known, s, exprs[i], at) {
            None => None,
            Some(s) => all_resolved(known, s, exprs, i + 1, at + places(exprs[i]).len()),
        }
    }
}

/// Resolves the uses of names in `alts` from `i` on.
pub open spec fn alts_resolved(
    known: Known,
    s: Inferred,
    alts: Seq<Alternative>,
    i: int,
    at: int,
) -> Option<Inferred>
    decreases alts, alts.len() - i,
{
    if i < 0 || i >= alts.len() {
        Some(s)
    } else {
        let inner = at + pattern_places(alts[i].pattern).len();
        match pattern_scoped(known, s.enter(), alts[i].pattern, at) {
            None => None,
            Some(s) => match uses_resolved(known, s, alts[i].expr, inner) {
                None => None,
                Some(s) => alts_resolved(
                    known,
                    s.exit(),
                    alts,
                    i + 1,
                    inner + places(alts[i].expr).len(),
                ),
            },
        }
    }
}

/// Resolves the uses of names in the values of `fields` from `i` on. A field without a value is a use.
pub open spec fn fields_resolved(
    known: Known,
    s: Inferred,
    fields: Seq<ExprField>,
    i: int,
    at: int,
) -> Option<Inferred>
    decreases fields, fields.len() - i,
{
    if i < 0 || i >= fields.len() {
        Some(s)
    } else {
        match fields[i].value {
            Some(value) => match uses_resolved(known, s, value, at) {
                None => None,
                Some(s) => fields_resolved(known, s, fields, i + 1, at + places(value).len()),
            },
            None => match noted_use(known, s, fields[i].name.span, at) {
                None => None,
                Some(s) => fields_resolved(known, s, fields, i + 1, at + 1),
            },
        }
    }
}

/// Binds the names of `bindings` from `i` on.
pub open spec fn names_resolved(
    known: Known,
    s: Inferred,
    bindings: Seq<ValueBinding>,
    i: int,
    at: int,
) -> Option<Inferred>
    decreases bindings.len() - i,
{
    if i < 0 || i >= bindings.len() {
        Some(s)
    } else {
        match pattern_scoped(known, s, bindings[i].name, at) {
            None => None,
            Some(s) => names_resolved(
                known,
                s,
                bindings,
                i + 1,
                at + pattern_places(bindings[i].name).len(),
            ),
        }
    }
}

/// Resolves the uses of names in `bindings` from `i` on. If they are bound `last` each is bound behind
/// its value.
pub open spec fn bindings_resolved(
    known: Known,
    s: Inferred,
    bindings: Seq<ValueBinding>,
    last: bool,
    i: int,
    at: int,
) -> Option<Inferred>
    decreases bindings, bindings.len() - i,
{
    if i < 0 || i >= bindings.len() {
        Some(s)
    } else {
        let binding = bindings[i];
        let names = arg_names(binding.args@);
        let inner = at + binding.args@.len();
        let end = inner + places(binding.expr).len();
        match uses_resolved(
            known,
            names_scoped(s.enter(), names, names.len(), at),
            binding.expr,
            inner,
        ) {
            None => None,
            Some(s) => if last {
                match pattern_scoped(known, s.exit(), binding.name, end) {
                    None => None,
                    Some(s) => bindings_resolved(
                        known,
                        s,
                        bindings,
                        last,
                        i + 1,
                        end + pattern_places(binding.name).len(),
                    ),
                }
            } else {
                bindings_resolved(known, s.exit(), bindings, last, i + 1, end)
            },
        }
    }
}

impl<'a, E: TypeEnv> Typecheck<'a, E> {
    fn does_fit(&mut self, binding: &ArcType, used: &ArcType) -> (res: bool)
        requires
            fits(old(self).known(), old(self)@, binding@, used@) is Some,
        ensures
            final(self).known() == old(self).known(),
            fits(old(self).known(), old(self)@, binding@, used@) == Some((final(self)@, res)),
    {
        let typ = self.instantiate(binding);
        self.unify(used, typ).is_ok()
    }

    fn find_fitting(&mut self, name: &Symbol, used: &ArcType, n: usize) -> (res: bool)
        requires
            fitting(old(self).known(), old(self)@, name@, used@, n as nat) is Some,
        ensures
            final(self).known() == old(self).known(),
            fitting(old(self).known(), old(self)@, name@, used@, n as nat) == Some(
                (final(self)@, res),
            ),
        decreases n,
    {
        match self.value_before(name, n) {
            None => match self.outer_type(name) {
                Some(typ) => self.does_fit(&typ, used),
                None => false,
            },
            Some(i) => {
                let typ = self.value_type(i);
                if self.does_fit(&typ, used) {
                    true
                } else {
                    self.find_fitting(name, used, i)
                }
            },
        }
    }

    fn is_overloaded(&self, name: &Symbol) -> (res: bool)
        ensures
            res == overloaded(self.known(), self@, name@),
    {
        match self.value_before(name, self.value_count()) {
            None => false,
            Some(i) => self.outer_type(name).is_some() || self.value_before(name, i).is_some(),
        }
    }

    /// The use at `span` of the identifier `at`.
    fn rename(&mut self, span: Span, at: usize)
        requires
            noted_use(old(self).known(), old(self)@, span, at as int) is Some,
        ensures
            final(self).known() == old(self).known(),
            noted_use(old(self).known(), old(self)@, span, at as int) == Some(final(self)@),
    {
        if at >= self.note_count() {
            return ;
        }
        let (name, used) = self.note_at(at);
        if self.is_overloaded(&name) {
            let n: usize = self.value_count();
            if !self.find_fitting(&name, &used, n) {
                self.report(span, TypeError::Rename(name, used));
            }
        }
    }

    fn type_of_note(&self, at: usize) -> (res: ArcType)
        ensures
            res@ == note_type(self@, at as int),
    {
        if at < self.note_count() {
            self.note_at(at).1
        } else {
            Type::hole()
        }
    }

    fn scope_names(&mut self, names: &Vec<Option<Symbol>>, at: usize)
        requires
            at + names@.len() <= usize::MAX,
        ensures
            final(self).known() == old(self).known(),
            final(self)@ == names_scoped(
                old(self)@,
                opt_names(names@),
                names@.len(),
                at as int,
            ),
    {
        let ghost all = opt_names(names@);
        let mut i: usize = 0;
        while i < names.len()
            invariant
                i <= names@.len(),
                at + names@.len() <= usize::MAX,
                all == opt_names(names@),
                self.known() == old(self).known(),
                self@ == names_scoped(old(self)@, all, i as nat, at as int),
            decreases names@.len() - i,
        {
            assert(all[i as int] == opt_name(names@[i as int]));
            if let Some(name) = &names[i] {
                let typ = self.type_of_note(at + i);
                self.stack_var(name.clone(), typ);
            }
            i += 1;
        }
    }

    fn scope_pattern(&mut self, pattern: &SpannedPattern, at: usize) -> (next: usize)
        requires
            at + pattern_places(*pattern).len() <= usize::MAX,
            pattern_scoped(old(self).known(), old(self)@, *pattern, at as int) is Some,
        ensures
            final(self).known() == old(self).known(),
            pattern_scoped(old(self).known(), old(self)@, *pattern, at as int) == Some(
                final(self)@,
            ),
            next == at + pattern_places(*pattern).len(),
    {
        let names = pattern_names(pattern);
        assert(opt_names(names@).len() == names@.len());
        match &pattern.value {
            Pattern::Record { typ: _, types, fields } => {
                let typ = self.type_of_note(at);
                self.scope_names(&names, at + 1);
                let record = self.remove_alias(&typ);
                let _ = self.bind_types(&record, types);
                at + 1 + fields.len()
            },
            _ => {
                self.scope_names(&names, at);
                at + names.len()
            },
        }
    }

    fn scope_args(&mut self, args: &Vec<SpannedIdent>, at: usize) -> (next: usize)
        requires
            at + ident_places(args@).len() <= usize::MAX,
        ensures
            final(self).known() == old(self).known(),
            final(self)@ == names_scoped(
                old(self)@,
                arg_names(args@),
                arg_names(args@).len(),
                at as int,
            ),
            next == at + args@.len(),
    {
        let mut names: Vec<Option<Symbol>> = Vec::new();
        let mut i: usize = 0;
        while i < args.len()
            invariant
                i <= args@.len(),
                names@.len() == i,
                forall|j: int|
                    0 <= j < i ==> opt_name(#[trigger] names@[j]) == Some(args@[j].value.name@),
            decreases args@.len() - i,
        {
            names.push(Some(args[i].value.name.clone()));
            i += 1;
        }
        assert(opt_names(names@) =~= arg_names(args@));
        self.scope_names(&names, at);
        at + args.len()
    }

    /// Resolves the uses of names in `expr`, whose identifiers are those from `at` on.
    #[verifier::rlimit(60)]
    pub(crate) fn resolve_uses(&mut self, expr: &SpannedExpr, at: usize) -> (next: usize)
        requires
            at + places(*expr).len() <= usize::MAX,
            uses_resolved(old(self).known(), old(self)@, *expr, at as int) is Some,
        ensures
            final(self).known() == old(self).known(),
            uses_resolved(old(self).known(), old(self)@, *expr, at as int) == Some(final(self)@),
            next == at + places(*expr).len(),
        decreases *expr, 1nat,
    {
        match &expr.value {
            Expr::Ident(_) => {
                self.rename(expr.span, at);
                at + 1
            },
            Expr::App(func, args) => {
                let next = self.resolve_uses(func, at);
                self.resolve_all(args, next)
            },
            Expr::Lambda(lambda) => {
                self.enter_scope();
                let next = self.scope_args(&lambda.args, at);
                let next = self.resolve_uses(&lambda.body, next);
                self.exit_scope();
                next + 1
            },
            Expr::IfElse(pred, yes, no) => {
                let next = self.resolve_uses(pred, at);
                let next = self.resolve_uses(yes, next);
                self.resolve_uses(no, next)
            },
            Expr::Match(value, alts) => {
                let next = self.resolve_uses(value, at);
                self.resolve_alternatives(alts, next)
            },
            Expr::Infix(lhs, op, rhs) => {
                let next = self.resolve_uses(lhs, at);
                let next = self.resolve_uses(rhs, next);
                self.rename(op.span, next);
                next + 1
            },
            Expr::Projection(value, _, _) => {
                let next = self.resolve_uses(value, at);
                next + 1
            },
            Expr::Array(_, elems) => {
                let next = self.resolve_all(elems, at);
                next + 1
            },
            Expr::Block(exprs) => self.resolve_all(exprs, at),
            Expr::Record { typ: _, types: _, exprs, base: _ } => {
                let next = self.resolve_fields(exprs, at);
                next + 1
            },
            Expr::LetBindings(bindings, body) => {
                self.enter_scope();
                let next = if are_functions(bindings) {
                    let next = self.resolve_names(bindings, at);
                    self.resolve_bindings(bindings, false, next)
                } else {
                    self.resolve_bindings(bindings, true, at)
                };
                let next = self.resolve_uses(body, next);
                self.exit_scope();
                next
            },
            Expr::TypeBindings(bindings, body) => {
                self.enter_scope();
                self.rename_types(bindings);
                let params = self.scope_params(bindings);
                self.declare_types(bindings, &params, body.span);
                let next = self.resolve_uses(body, at);
                self.exit_scope();
                next
            },
            _ => at,
        }
    }

    fn resolve_all(&mut self, exprs: &Vec<SpannedExpr>, at: usize) -> (next: usize)
        requires
            at + all_places(exprs@, exprs@.len()).len() <= usize::MAX,
            all_resolved(old(self).known(), old(self)@, exprs@, 0, at as int) is Some,
        ensures
            final(self).known() == old(self).known(),
            all_resolved(old(self).known(), old(self)@, exprs@, 0, at as int) == Some(final(self)@),
            next == at + all_places(exprs@, exprs@.len()).len(),
        decreases exprs@, 0nat,
    {
        let ghost known = self.known();
        let ghost all = all_resolved(known, self@, exprs@, 0, at as int);
        let mut next: usize = at;
        let mut i: usize = 0;
        while i < exprs.len()
            invariant
                i <= exprs@.len(),
                self.known() == known,
                at + all_places(exprs@, exprs@.len()).len() <= usize::MAX,
                next == at + all_places(exprs@, i as nat).len(),
                all is Some,
                all == all_resolved(known, self@, exprs@, i as int, next as int),
            decreases exprs@.len() - i,
        {
            proof {
                all_places_grow(exprs@, (i + 1) as nat, exprs@.len());
                assert(decreases_to!(exprs@ => exprs@[i as int]));
            }
            next = self.resolve_uses(&exprs[i], next);
            i += 1;
        }
        next
    }

    fn resolve_alternatives(&mut self, alts: &Vec<Alternative>, at: usize) -> (next: usize)
        requires
            at + alt_places(alts@, alts@.len()).len() <= usize::MAX,
            alts_resolved(old(self).known(), old(self)@, alts@, 0, at as int) is Some,
        ensures
            final(self).known() == old(self).known(),
            alts_resolved(old(self).known(), old(self)@, alts@, 0, at as int) == Some(final(self)@),
            next == at + alt_places(alts@, alts@.len()).len(),
        decreases alts@, 0nat,
    {
        let ghost known = self.known();
        let ghost all = alts_resolved(known, self@, alts@, 0, at as int);
        let mut next: usize = at;
        let mut i: usize = 0;
        while i < alts.len()
            invariant
                i <= alts@.len(),
                self.known() == known,
                at + alt_places(alts@, alts@.len()).len() <= usize::MAX,
                next == at + alt_places(alts@, i as nat).len(),
                all is Some,
                all == alts_resolved(known, self@, alts@, i as int, next as int),
            decreases alts@.len() - i,
        {
            proof {
                alt_places_grow(alts@, (i + 1) as nat, alts@.len());
                assert(decreases_to!(alts@ => alts@[i as int]));
            }
            self.enter_scope();
            next = self.scope_pattern(&alts[i].pattern, next);
            next = self.resolve_uses(&alts[i].expr, next);
            self.exit_scope();
            i += 1;
        }
        next
    }

    fn resolve_fields(&mut self, fields: &Vec<ExprField>, at: usize) -> (next: usize)
        requires
            at + value_places(fields@, fields@.len()).len() <= usize::MAX,
            fields_resolved(old(self).known(), old(self)@, fields@, 0, at as int) is Some,
        ensures
            final(self).known() == old(self).known(),
            fields_resolved(old(self).known(), old(self)@, fields@, 0, at as int) == Some(
                final(self)@,
            ),
            next == at + value_places(fields@, fields@.len()).len(),
        decreases fields@, 0nat,
    {
        let ghost known = self.known();
        let ghost all = fields_resolved(known, self@, fields@, 0, at as int);
        let mut next: usize = at;
        let mut i: usize = 0;
        while i < fields.len()
            invariant
                i <= fields@.len(),
                self.known() == known,
                at + value_places(fields@, fields@.len()).len() <= usize::MAX,
                next == at + value_places(fields@, i as nat).len(),
                all is Some,
                all == fields_resolved(known, self@, fields@, i as int, next as int),
            decreases fields@.len() - i,
        {
            proof {
                value_places_grow(fields@, (i + 1) as nat, fields@.len());
                assert(decreases_to!(fields@ => fields@[i as int]));
            }
            match &fields[i].value {
                Some(value) => {
                    next = self.resolve_uses(value, next);
                },
                None => {
                    self.rename(fields[i].name.span, next);
                    next += 1;
                },
            }
            i += 1;
        }
        next
    }

    fn resolve_names(&mut self, bindings: &Vec<ValueBinding>, at: usize) -> (next: usize)
        requires
            at + name_places(bindings@, bindings@.len()).len() <= usize::MAX,
            names_resolved(old(self).known(), old(self)@, bindings@, 0, at as int) is Some,
        ensures
            final(self).known() == old(self).known(),
            names_resolved(old(self).known(), old(self)@, bindings@, 0, at as int) == Some(
                final(self)@,
            ),
            next == at + name_places(bindings@, bindings@.len()).len(),
    {
        let ghost known = self.known();
        let ghost all = names_resolved(known, self@, bindings@, 0, at as int);
        let mut next: usize = at;
        let mut i: usize = 0;
        while i < bindings.len()
            invariant
                i <= bindings@.len(),
                self.known() == known,
                at + name_places(bindings@, bindings@.len()).len() <= usize::MAX,
                next == at + name_places(bindings@, i as nat).len(),
                all is Some,
                all == names_resolved(known, self@, bindings@, i as int, next as int),
            decreases bindings@.len() - i,
        {
            proof {
                name_places_grow(bindings@, (i + 1) as nat, bindings@.len());
            }
            next = self.scope_pattern(&bindings[i].name, next);
            i += 1;
        }
        next
    }

    fn resolve_bindings(&mut self, bindings: &Vec<ValueBinding>, last: bool, at: usize) -> (next:
        usize)
        requires
            at + binding_places(bindings@, last, bindings@.len()).len() <= usize::MAX,
            bindings_resolved(old(self).known(), old(self)@, bindings@, last, 0, at as int) is Some,
        ensures
            final(self).known() == old(self).known(),
            bindings_resolved(old(self).known(), old(self)@, bindings@, last, 0, at as int) == Some(
                final(self)@,
            ),
            next == at + binding_places(bindings@, last, bindings@.len()).len(),
        decreases bindings@, 0nat,
    {
        let ghost known = self.known();
        let ghost all = bindings_resolved(known, self@, bindings@, last, 0, at as int);
        let mut next: usize = at;
        let mut i: usize = 0;
        while i < bindings.len()
            invariant
                i <= bindings@.len(),
                self.known() == known,
                at + binding_places(bindings@, last, bindings@.len()).len() <= usize::MAX,
                next == at + binding_places(bindings@, last, i as nat).len(),
                all is Some,
                all == bindings_resolved(known, self@, bindings@, last, i as int, next as int),
            decreases bindings@.len() - i,
        {
            proof {
                binding_places_grow(bindings@, last, (i + 1) as nat, bindings@.len());
                assert(decreases_to!(bindings@ => bindings@[i as int]));
            }
            self.enter_scope();
            next = self.scope_args(&bindings[i].args, next);
            next = self.resolve_uses(&bindings[i].expr, next);
            self.exit_scope();
            if last {
                next = self.scope_pattern(&bindings[i].name, next);
            }
            i += 1;
        }
        next
    }
}

proof fn all_places_grow(items: Seq<SpannedExpr>, m: nat, n: nat)
    requires
        m <= n <= items.len(),
    ensures
        all_places(items, m).len() <= all_places(items, n).len(),
    decreases n,
{
    if m < n {
        all_places_grow(items, m, (n - 1) as nat);
    }
}

proof fn alt_places_grow(items: Seq<Alternative>, m: nat, n: nat)
    requires
        m <= n <= items.len(),
    ensures
        alt_places(items, m).len() <= alt_places(items, n).len(),
    decreases n,
{
    if m < n {
        alt_places_grow(items, m, (n - 1) as nat);
    }
}

proof fn value_places_grow(items: Seq<ExprField>, m: nat, n: nat)
    requires
        m <= n <= items.len(),
    ensures
        value_places(items, m).len() <= value_places(items, n).len(),
    decreases n,
{
    if m < n {
        value_places_grow(items, m, (n - 1) as nat);
    }
}

proof fn name_places_grow(items: Seq<ValueBinding>, m: nat, n: nat)
    requires
        m <= n <= items.len(),
    ensures
        name_places(items, m).len() <= name_places(items, n).len(),
    decreases n,
{
    if m < n {
        name_places_grow(items, m, (n - 1) as nat);
    }
}

proof fn binding_places_grow(items: Seq<ValueBinding>, last: bool, m: nat, n: nat)
    requires
        m <= n <= items.len(),
    ensures
        binding_places(items, last, m).len() <= binding_places(items, last, n).len(),
    decreases n,
{
    if m < n {
        binding_places_grow(items, last, m, (n - 1) as nat);
    }
}

} // verus!
