//! Checks that recursive bindings are not used before they are initialized.

use vstd::prelude::*;
use crate::ast::{
    Alternative, Expr, ExprField, Pattern, PatternField, SpannedExpr, SpannedPattern, ValueBinding,
};
use crate::pos::{Span, Spanned};
use crate::symbol::{last_part, names_constructor, Symbol};
use crate::symbol_map::{contains_symbol, names};

verus! {

pub enum Error {
    InvalidRecursion { symbol: Symbol },
    LastExprMustBeConstructor,
}

impl Error {
    /// The message for the error.
    pub fn message(&self) -> (res: String)
        ensures
            res@ == match self {
                Error::InvalidRecursion { symbol } => "`"@ + last_part(symbol@)
                    + "` may not be used recursively here"@,
                Error::LastExprMustBeConstructor =>
                    "The last expression a recursive binding must construct a record, a tuple, a variant or a lambda"@,
            },
    {
        match self {
            Error::InvalidRecursion { symbol } => {
                let start = crate::text::join("`", symbol.declared_name());
                crate::text::join(start.as_str(), "` may not be used recursively here")
            },
            Error::LastExprMustBeConstructor =>
                "The last expression a recursive binding must construct a record, a tuple, a variant or a lambda".to_owned(),
        }
    }
}

/// A use of a name.
pub struct Use {
    pub span: Span,
    pub name: Seq<char>,
}

/// An error, or rather what it says.
pub enum Fault {
    InvalidRecursion(Span, Seq<char>),
    LastExprMustBeConstructor(Span),
}

/// How far the check has come.
pub struct Checked {
    /// The names that may not have a value yet.
    pub uninitialized: Set<Seq<char>>,
    /// The uses of such names.
    pub uses: Seq<Use>,
    pub faults: Seq<Fault>,
}

/// `expr` is the name of a constructor.
pub open spec fn constructor_ident(expr: SpannedExpr) -> bool {
    expr.value matches Expr::Ident(id) && names_constructor(id.name@)
}

/// `expr` applies a constructor.
pub open spec fn constructor_expr(expr: SpannedExpr) -> bool {
    expr.value matches Expr::App(func, _) && constructor_ident(*func)
}

/// The use of `name` at `span`, where it counts.
pub open spec fn used(s: Checked, span: Span, name: Seq<char>) -> Checked {
    if s.uninitialized.contains(name) {
        Checked { uses: s.uses.push(Use { span, name }), ..s }
    } else {
        s
    }
}

/// All uses from `from` on are wrong.
pub open spec fn blamed(s: Checked, from: nat) -> Checked {
    Checked {
        faults: s.faults + Seq::new(
            (s.uses.len() - from) as nat,
            |i: int| Fault::InvalidRecursion(s.uses[from + i].span, s.uses[from + i].name),
        ),
        ..s
    }
}

/// The faults in the expressions that `expr` may end with: they have to construct something.
/// Nothing can be said of a block that is empty.
pub open spec fn tail_faults(expr: SpannedExpr) -> Option<Seq<Fault>>
    decreases expr, 0nat,
{
    match expr.value {
        Expr::Block(exprs) => if exprs@.len() == 0 {
            None
        } else {
            tail_faults(exprs@[exprs@.len() - 1])
        },
        Expr::LetBindings(_, body) => tail_faults(*body),
        Expr::TypeBindings(_, body) => tail_faults(*body),
        Expr::IfElse(_, if_true, if_false) => match (tail_faults(*if_true), tail_faults(*if_false)) {
            (Some(l), Some(r)) => Some(l + r),
            _ => None,
        },
        Expr::Match(_, alts) => alternative_faults(alts@, alts@.len()),
        Expr::Record { .. } => Some(Seq::empty()),
        Expr::Tuple { .. } => Some(Seq::empty()),
        Expr::App(func, _) => if constructor_ident(*func) {
            Some(Seq::empty())
        } else {
            Some(seq![Fault::LastExprMustBeConstructor(expr.span)])
        },
        _ => Some(seq![Fault::LastExprMustBeConstructor(expr.span)]),
    }
}

pub open spec fn alternative_faults(alts: Seq<Alternative>, n: nat) -> Option<Seq<Fault>>
    decreases alts, n,
{
    if n == 0 || n > alts.len() {
        Some(Seq::empty())
    } else {
        match (alternative_faults(alts, (n - 1) as nat), tail_faults(alts[n - 1].expr)) {
            (Some(l), Some(r)) => Some(l + r),
            _ => None,
        }
    }
}

/// The names in `pattern`.
pub open spec fn pattern_names(pattern: SpannedPattern) -> Set<Seq<char>>
    decreases pattern, 0nat,
{
    match pattern.value {
        Pattern::As(id, inner) => pattern_names(*inner).insert(id@),
        Pattern::Constructor(id, args) => patterns_names(args@, args@.len()).insert(id.name@),
        Pattern::Ident(id) => set![id.name@],
        Pattern::Record { typ: _, types: _, fields } => fields_names(fields@, fields@.len()),
        Pattern::Tuple { typ: _, elems } => patterns_names(elems@, elems@.len()),
        Pattern::Error => Set::empty(),
    }
}

pub open spec fn patterns_names(patterns: Seq<SpannedPattern>, n: nat) -> Set<Seq<char>>
    decreases patterns, n,
{
    if n == 0 || n > patterns.len() {
        Set::empty()
    } else {
        patterns_names(patterns, (n - 1) as nat).union(pattern_names(patterns[n - 1]))
    }
}

pub open spec fn fields_names(fields: Seq<PatternField>, n: nat) -> Set<Seq<char>>
    decreases fields, n,
{
    if n == 0 || n > fields.len() {
        Set::empty()
    } else {
        let before = fields_names(fields, (n - 1) as nat);
        match fields[n - 1].value {
            Some(pattern) => before.union(pattern_names(pattern)),
            None => before.insert(fields[n - 1].name.value@),
        }
    }
}

/// The names that the first `n` of `bindings` bind to values rather than to functions.
pub open spec fn value_names(bindings: Seq<ValueBinding>, n: nat) -> Set<Seq<char>>
    decreases n,
{
    if n == 0 || n > bindings.len() {
        Set::empty()
    } else {
        let before = value_names(bindings, (n - 1) as nat);
        match bindings[n - 1].name.value {
            Pattern::Ident(id) => if bindings[n - 1].args@.len() == 0 {
                before.insert(id.name@)
            } else {
                before
            },
            _ => before,
        }
    }
}

/// All uses from `from` on are of `name`.
pub open spec fn all_uses(uses: Seq<Use>, from: nat, name: Seq<char>) -> bool {
    forall|i: int| from <= i < uses.len() ==> (#[trigger] uses[i]).name == name
}

/// A use from `from` on is of `name`.
pub open spec fn any_use(uses: Seq<Use>, from: nat, name: Seq<char>) -> bool {
    exists|i: int| from <= i < uses.len() && (#[trigger] uses[i]).name == name
}

/// The binding of `expr` to `pattern` after `expr` has been checked, with `from` uses before it. If
/// the value uses something that may have no value yet, so do the names that are bound to it; if
/// it uses nothing but its own name, the name has a value from here on.
pub open spec fn checked_binding(
    s: Checked,
    from: nat,
    pattern: SpannedPattern,
    expr: SpannedExpr,
) -> Option<Checked> {
    let tainted = if s.uses.len() > from {
        let faults = match pattern.value {
            Pattern::Ident(id) => if any_use(s.uses, from, id.name@) {
                tail_faults(expr)
            } else {
                Some(Seq::empty())
            },
            _ => Some(Seq::empty()),
        };
        match faults {
            Some(faults) => Some(
                Checked {
                    uninitialized: s.uninitialized.union(pattern_names(pattern)),
                    uses: s.uses,
                    faults: s.faults + faults,
                },
            ),
            None => None,
        }
    } else {
        Some(s)
    };
    match (tainted, pattern.value) {
        (Some(t), Pattern::Ident(id)) => if all_uses(t.uses, from, id.name@) {
            Some(Checked { uninitialized: t.uninitialized.remove(id.name@), ..t })
        } else {
            Some(t)
        },
        _ => tainted,
    }
}

pub open spec fn checked_bindings(s: Checked, bindings: Seq<ValueBinding>, n: nat) -> Option<Checked>
    decreases bindings, n,
{
    if n == 0 || n > bindings.len() {
        Some(s)
    } else {
        match checked_bindings(s, bindings, (n - 1) as nat) {
            None => None,
            Some(before) => match checked(before, bindings[n - 1].expr) {
                None => None,
                Some(after) => checked_binding(
                    after,
                    before.uses.len(),
                    bindings[n - 1].name,
                    bindings[n - 1].expr,
                ),
            },
        }
    }
}

pub open spec fn checked_all(s: Checked, exprs: Seq<SpannedExpr>, n: nat) -> Option<Checked>
    decreases exprs, n,
{
    if n == 0 || n > exprs.len() {
        Some(s)
    } else {
        match checked_all(s, exprs, (n - 1) as nat) {
            None => None,
            Some(s) => checked(s, exprs[n - 1]),
        }
    }
}

pub open spec fn checked_alternatives(s: Checked, alts: Seq<Alternative>, n: nat) -> Option<Checked>
    decreases alts, n,
{
    if n == 0 || n > alts.len() {
        Some(s)
    } else {
        match checked_alternatives(s, alts, (n - 1) as nat) {
            None => None,
            Some(s) => checked(s, alts[n - 1].expr),
        }
    }
}

pub open spec fn checked_fields(s: Checked, fields: Seq<ExprField>, n: nat) -> Option<Checked>
    decreases fields, n,
{
    if n == 0 || n > fields.len() {
        Some(s)
    } else {
        match checked_fields(s, fields, (n - 1) as nat) {
            None => None,
            Some(s) => match fields[n - 1].value {
                Some(expr) => checked(s, expr),
                None => Some(used(s, fields[n - 1].name.span, fields[n - 1].name.value@)),
            },
        }
    }
}

/// How far the check has come behind `expr`. Nothing can be said where a recursive value ends in an
/// empty block.
pub open spec fn checked(s: Checked, expr: SpannedExpr) -> Option<Checked>
    decreases expr, 0nat,
{
    match expr.value {
        Expr::Ident(id) => Some(used(s, expr.span, id.name@)),
        Expr::LetBindings(bindings, body) => {
            let start = Checked {
                uninitialized: s.uninitialized.union(value_names(bindings@, bindings@.len())),
                ..s
            };
            match checked_bindings(start, bindings@, bindings@.len()) {
                None => None,
                Some(s) => checked(s, *body),
            }
        },
        Expr::TypeBindings(_, body) => checked(s, *body),
        // The body of a lambda runs only when all bindings have a value
        Expr::Lambda(lambda) => match checked(
            Checked { uninitialized: Set::empty(), ..s },
            *lambda.body,
        ) {
            None => None,
            Some(after) => Some(Checked { uninitialized: s.uninitialized, ..after }),
        },
        Expr::App(func, args) => match checked(s, *func) {
            None => None,
            Some(t) => match checked_all(t, args@, args@.len()) {
                None => None,
                Some(t) => Some(
                    if constructor_expr(expr) {
                        t
                    } else {
                        blamed(t, s.uses.len())
                    },
                ),
            },
        },
        Expr::Infix(lhs, op, rhs) => match checked(s, *lhs) {
            None => None,
            Some(t) => match checked(used(t, op.span, op.value.name@), *rhs) {
                None => None,
                Some(t) => Some(blamed(t, s.uses.len())),
            },
        },
        Expr::Match(value, alts) => match checked(s, *value) {
            None => None,
            Some(t) => checked_alternatives(blamed(t, s.uses.len()), alts@, alts@.len()),
        },
        Expr::IfElse(pred, if_true, if_false) => match checked(s, *pred) {
            None => None,
            Some(s) => match checked(s, *if_true) {
                None => None,
                Some(s) => checked(s, *if_false),
            },
        },
        Expr::Projection(value, _, _) => checked(s, *value),
        Expr::Array(_, exprs) => checked_all(s, exprs@, exprs@.len()),
        Expr::Record { typ: _, types: _, exprs, base } => match checked_fields(
            s,
            exprs@,
            exprs@.len(),
        ) {
            None => None,
            Some(s) => match base {
                Some(base) => checked(s, *base),
                None => Some(s),
            },
        },
        Expr::Tuple { typ: _, elems } => checked_all(s, elems@, elems@.len()),
        Expr::Block(exprs) => checked_all(s, exprs@, exprs@.len()),
        Expr::Do(do_expr) => match checked(used(s, do_expr.id.span, do_expr.id.value.name@), *do_expr.bound) {
            None => None,
            Some(s) => checked(s, *do_expr.body),
        },
        Expr::Literal(_) => Some(s),
        Expr::Error => Some(s),
    }
}

pub open spec fn nothing_checked() -> Checked {
    Checked { uninitialized: Set::empty(), uses: Seq::empty(), faults: Seq::empty() }
}

/// The errors that were found.
pub type RecursionErrors = Vec<Spanned<Error>>;

pub open spec fn uses_view(uses: Seq<Spanned<Symbol>>) -> Seq<Use> {
    uses.map_values(|u: Spanned<Symbol>| Use { span: u.span, name: u.value@ })
}

/// What `error` says.
pub open spec fn fault_of(error: Spanned<Error>) -> Fault {
    match error.value {
        Error::InvalidRecursion { symbol } => Fault::InvalidRecursion(error.span, symbol@),
        Error::LastExprMustBeConstructor => Fault::LastExprMustBeConstructor(error.span),
    }
}

pub open spec fn faults_view(errors: Seq<Spanned<Error>>) -> Seq<Fault> {
    errors.map_values(|e: Spanned<Error>| fault_of(e))
}

/// Runs the check over an expression.
struct Checker {
    uninitialized_values: Vec<Symbol>,
    uninitialized_free_variables: Vec<Spanned<Symbol>>,
    errors: RecursionErrors,
}

impl View for Checker {
    type V = Checked;

    closed spec fn view(&self) -> Checked {
        Checked {
            uninitialized: names(self.uninitialized_values@),
            uses: uses_view(self.uninitialized_free_variables@),
            faults: faults_view(self.errors@),
        }
    }
}

/// Checks that no binding in `expr` is used before it has a value, and that the values of recursive
/// bindings construct something.
pub fn check_expr(expr: &SpannedExpr) -> (res: Result<(), RecursionErrors>)
    requires
        checked(nothing_checked(), *expr) is Some,
    ensures
        match res {
            Ok(()) => checked(nothing_checked(), *expr)->0.faults.len() == 0,
            Err(errors) => errors@.len() > 0 && faults_view(errors@) == checked(
                nothing_checked(),
                *expr,
            )->0.faults,
        },
{
    let mut checker = Checker {
        uninitialized_values: Vec::new(),
        uninitialized_free_variables: Vec::new(),
        errors: Vec::new(),
    };
    proof {
        assert(names(checker.uninitialized_values@) =~= Set::<Seq<char>>::empty());
        assert(uses_view(checker.uninitialized_free_variables@) =~= Seq::<Use>::empty());
        assert(faults_view(checker.errors@) =~= Seq::<Fault>::empty());
    }
    checker.visit_expr(expr);
    if checker.errors.len() > 0 {
        Err(checker.errors)
    } else {
        Ok(())
    }
}

fn is_constructor_expr(expr: &SpannedExpr) -> (res: bool)
    ensures
        res == constructor_expr(*expr),
{
    match &expr.value {
        Expr::App(func, _) => is_constructor_ident(func),
        _ => false,
    }
}

fn is_constructor_ident(expr: &SpannedExpr) -> (res: bool)
    ensures
        res == constructor_ident(*expr),
{
    match &expr.value {
        Expr::Ident(id) => id.name.is_constructor(),
        _ => false,
    }
}

proof fn bindings_before(s: Checked, bindings: Seq<ValueBinding>, m: nat, n: nat)
    requires
        m <= n <= bindings.len(),
        checked_bindings(s, bindings, n) is Some,
    ensures
        checked_bindings(s, bindings, m) is Some,
    decreases n,
{
    if m < n {
        bindings_before(s, bindings, m, (n - 1) as nat);
    }
}

proof fn all_before(s: Checked, exprs: Seq<SpannedExpr>, m: nat, n: nat)
    requires
        m <= n <= exprs.len(),
        checked_all(s, exprs, n) is Some,
    ensures
        checked_all(s, exprs, m) is Some,
    decreases n,
{
    if m < n {
        all_before(s, exprs, m, (n - 1) as nat);
    }
}

proof fn alternatives_before(s: Checked, alts: Seq<Alternative>, m: nat, n: nat)
    requires
        m <= n <= alts.len(),
        checked_alternatives(s, alts, n) is Some,
    ensures
        checked_alternatives(s, alts, m) is Some,
    decreases n,
{
    if m < n {
        alternatives_before(s, alts, m, (n - 1) as nat);
    }
}

proof fn fields_before(s: Checked, fields: Seq<ExprField>, m: nat, n: nat)
    requires
        m <= n <= fields.len(),
        checked_fields(s, fields, n) is Some,
    ensures
        checked_fields(s, fields, m) is Some,
    decreases n,
{
    if m < n {
        fields_before(s, fields, m, (n - 1) as nat);
    }
}

proof fn alternative_faults_before(alts: Seq<Alternative>, m: nat, n: nat)
    requires
        m <= n <= alts.len(),
        alternative_faults(alts, n) is Some,
    ensures
        alternative_faults(alts, m) is Some,
    decreases n,
{
    if m < n {
        alternative_faults_before(alts, m, (n - 1) as nat);
    }
}

proof fn names_push(symbols: Seq<Symbol>, symbol: Symbol)
    ensures
        names(symbols.push(symbol)) == names(symbols).insert(symbol@),
{
    let more = symbols.push(symbol);
    assert forall|name: Seq<char>|
        names(more).contains(name) == names(symbols).insert(symbol@).contains(name) by {
        if names(more).contains(name) {
            let i = choose|i: int| 0 <= i < more.len() && (#[trigger] more[i])@ == name;
            if i < symbols.len() {
                assert(symbols[i]@ == name);
            }
        }
        if names(symbols).contains(name) {
            let i = choose|i: int| 0 <= i < symbols.len() && (#[trigger] symbols[i])@ == name;
            assert(more[i]@ == name);
        }
        if name == symbol@ {
            assert(more[symbols.len() as int]@ == name);
        }
    }
    assert(names(more) =~= names(symbols).insert(symbol@));
}

impl Checker {
    fn taint(&mut self, name: &Symbol)
        ensures
            final(self)@ == (Checked {
                uninitialized: old(self)@.uninitialized.insert(name@),
                ..old(self)@
            }),
    {
        proof {
            names_push(self.uninitialized_values@, *name);
        }
        self.uninitialized_values.push(name.clone());
    }

    fn initialize(&mut self, name: &Symbol)
        ensures
            final(self)@ == (Checked {
                uninitialized: old(self)@.uninitialized.remove(name@),
                ..old(self)@
            }),
    {
        let mut kept: Vec<Symbol> = Vec::new();
        let ghost all = self.uninitialized_values@;
        let mut i: usize = 0;
        assert(names(kept@) =~= names(all.take(0)).remove(name@));
        while i < self.uninitialized_values.len()
            invariant
                i <= all.len(),
                *self == *old(self),
                all == self.uninitialized_values@,
                names(kept@) == names(all.take(i as int)).remove(name@),
            decreases all.len() - i,
        {
            proof {
                assert(all.take(i + 1) =~= all.take(i as int).push(all[i as int]));
                names_push(all.take(i as int), all[i as int]);
                names_push(kept@, all[i as int]);
            }
            if self.uninitialized_values[i] != *name {
                kept.push(self.uninitialized_values[i].clone());
            }
            i += 1;
            assert(names(kept@) =~= names(all.take(i as int)).remove(name@));
        }
        assert(all.take(i as int) =~= all);
        self.uninitialized_values = kept;
    }

    fn check_ident(&mut self, span: Span, id: &Symbol)
        ensures
            final(self)@ == used(old(self)@, span, id@),
    {
        if contains_symbol(&self.uninitialized_values, id) {
            self.uninitialized_free_variables.push(Spanned { span, value: id.clone() });
            assert(uses_view(self.uninitialized_free_variables@) =~= old(self)@.uses.push(
                Use { span, name: id@ },
            ));
        }
    }

    fn push_error(&mut self, error: Spanned<Error>)
        ensures
            final(self)@ == (Checked {
                faults: old(self)@.faults.push(fault_of(error)),
                ..old(self)@
            }),
    {
        self.errors.push(error);
        assert(faults_view(self.errors@) =~= old(self)@.faults.push(fault_of(error)));
    }

    fn check_tail(&mut self, expr: &SpannedExpr)
        requires
            tail_faults(*expr) is Some,
        ensures
            final(self)@ == (Checked {
                faults: old(self)@.faults + tail_faults(*expr)->0,
                ..old(self)@
            }),
        decreases expr,
    {
        let ghost faults = self@.faults;
        match &expr.value {
            Expr::Block(bs) => {
                assert(decreases_to!(bs@ => bs@[bs@.len() - 1]));
                self.check_tail(&bs[bs.len() - 1]);
            },
            Expr::LetBindings(_, e) => {
                self.check_tail(e);
            },
            Expr::TypeBindings(_, e) => {
                self.check_tail(e);
            },
            Expr::IfElse(_, if_true, if_false) => {
                self.check_tail(if_true);
                self.check_tail(if_false);
                assert(self@.faults =~= faults + tail_faults(*expr)->0);
            },
            Expr::Match(_, alts) => {
                let mut i: usize = 0;
                assert(faults + Seq::<Fault>::empty() =~= faults);
                while i < alts.len()
                    invariant
                        i <= alts@.len(),
                        decreases_to!(expr => alts@),
                        alternative_faults(alts@, alts@.len()) is Some,
                        alternative_faults(alts@, i as nat) is Some,
                        self@ == (Checked {
                            faults: faults + alternative_faults(alts@, i as nat)->0,
                            ..old(self)@
                        }),
                    decreases alts@.len() - i,
                {
                    proof {
                        alternative_faults_before(alts@, (i + 1) as nat, alts@.len());
                        assert(decreases_to!(alts@ => alts@[i as int]));
                    }
                    self.check_tail(&alts[i].expr);
                    i += 1;
                    assert(self@.faults =~= faults + alternative_faults(alts@, i as nat)->0);
                }
            },
            Expr::Record { .. } => {
                assert(faults + Seq::<Fault>::empty() =~= faults);
            },
            Expr::Tuple { .. } => {
                assert(faults + Seq::<Fault>::empty() =~= faults);
            },
            Expr::App(func, _) => {
                if !is_constructor_ident(func) {
                    self.push_error(
                        Spanned { span: expr.span, value: Error::LastExprMustBeConstructor },
                    );
                }
                assert(self@.faults =~= faults + tail_faults(*expr)->0);
            },
            _ => {
                self.push_error(
                    Spanned { span: expr.span, value: Error::LastExprMustBeConstructor },
                );
                assert(self@.faults =~= faults + tail_faults(*expr)->0);
            },
        }
    }

    /// Reports the uses from `start` on.
    fn blame(&mut self, start: usize)
        requires
            start <= old(self)@.uses.len(),
        ensures
            final(self)@ == blamed(old(self)@, start as nat),
    {
        let ghost before = self@;
        let mut i: usize = start;
        let ghost all = blamed(before, start as nat).faults;
        let ghost old_len = before.faults.len();
        assert(all.take(old_len as int) =~= before.faults);
        while i < self.uninitialized_free_variables.len()
            invariant
                start <= i <= self.uninitialized_free_variables@.len(),
                all == blamed(before, start as nat).faults,
                old_len == before.faults.len(),
                before.uses == uses_view(self.uninitialized_free_variables@),
                self@ == (Checked { faults: all.take(old_len + (i - start)), ..before }),
            decreases self.uninitialized_free_variables@.len() - i,
        {
            let id = &self.uninitialized_free_variables[i];
            let error = Spanned {
                span: id.span,
                value: Error::InvalidRecursion { symbol: id.value.clone() },
            };
            let ghost so_far = self@.faults;
            self.push_error(error);
            i += 1;
            assert(so_far.push(fault_of(error)) =~= all.take(old_len + (i - start)));
        }
        assert(all.take(old_len + (i - start)) =~= all);
    }

    fn visit_pattern(&mut self, pattern: &SpannedPattern)
        ensures
            final(self)@ == (Checked {
                uninitialized: old(self)@.uninitialized.union(pattern_names(*pattern)),
                ..old(self)@
            }),
        decreases pattern, 1nat,
    {
        let ghost before = self@.uninitialized;
        match &pattern.value {
            Pattern::As(id, inner) => {
                self.taint(id);
                self.visit_pattern(inner);
            },
            Pattern::Constructor(id, args) => {
                self.taint(&id.name);
                self.visit_patterns(args);
            },
            Pattern::Ident(id) => {
                self.taint(&id.name);
            },
            Pattern::Record { typ: _, types: _, fields } => {
                let mut i: usize = 0;
                assert(before.union(Set::empty()) =~= before);
                while i < fields.len()
                    invariant
                        i <= fields@.len(),
                        decreases_to!(pattern => fields@),
                        self@ == (Checked {
                            uninitialized: before.union(fields_names(fields@, i as nat)),
                            ..old(self)@
                        }),
                    decreases fields@.len() - i,
                {
                    assert(decreases_to!(fields@ => fields@[i as int]));
                    match &fields[i].value {
                        Some(inner) => {
                            self.visit_pattern(inner);
                        },
                        None => {
                            self.taint(&fields[i].name.value);
                        },
                    }
                    i += 1;
                    assert(self@.uninitialized =~= before.union(fields_names(fields@, i as nat)));
                }
            },
            Pattern::Tuple { typ: _, elems } => {
                self.visit_patterns(elems);
            },
            Pattern::Error => {},
        }
        assert(self@.uninitialized =~= before.union(pattern_names(*pattern)));
    }

    fn visit_patterns(&mut self, patterns: &Vec<SpannedPattern>)
        ensures
            final(self)@ == (Checked {
                uninitialized: old(self)@.uninitialized.union(
                    patterns_names(patterns@, patterns@.len()),
                ),
                ..old(self)@
            }),
        decreases patterns@, 0nat,
    {
        let ghost before = self@.uninitialized;
        let mut i: usize = 0;
        assert(before.union(Set::empty()) =~= before);
        while i < patterns.len()
            invariant
                i <= patterns@.len(),
                self@ == (Checked {
                    uninitialized: before.union(patterns_names(patterns@, i as nat)),
                    ..old(self)@
                }),
            decreases patterns@.len() - i,
        {
            assert(decreases_to!(patterns@ => patterns@[i as int]));
            self.visit_pattern(&patterns[i]);
            i += 1;
            assert(self@.uninitialized =~= before.union(patterns_names(patterns@, i as nat)));
        }
    }

    /// Whether all uses from `start` on are of `name`, and whether one is.
    fn uses_of(&self, start: usize, name: &Symbol) -> (res: (bool, bool))
        requires
            start <= self@.uses.len(),
        ensures
            res.0 == all_uses(self@.uses, start as nat, name@),
            res.1 == any_use(self@.uses, start as nat, name@),
    {
        let ghost uses = self@.uses;
        let mut all = true;
        let mut any = false;
        let mut i: usize = start;
        while i < self.uninitialized_free_variables.len()
            invariant
                start <= i <= self.uninitialized_free_variables@.len(),
                uses == uses_view(self.uninitialized_free_variables@),
                all == (forall|j: int| start <= j < i ==> (#[trigger] uses[j]).name == name@),
                any == (exists|j: int| start <= j < i && (#[trigger] uses[j]).name == name@),
            decreases self.uninitialized_free_variables@.len() - i,
        {
            assert(uses[i as int].name == self.uninitialized_free_variables@[i as int].value@);
            if self.uninitialized_free_variables[i].value == *name {
                any = true;
            } else {
                all = false;
            }
            i += 1;
        }
        (all, any)
    }

    fn visit_all(&mut self, exprs: &Vec<SpannedExpr>)
        requires
            checked_all(old(self)@, exprs@, exprs@.len()) is Some,
        ensures
            checked_all(old(self)@, exprs@, exprs@.len()) == Some(final(self)@),
        decreases exprs@, 0nat,
    {
        let ghost start = self@;
        let mut i: usize = 0;
        while i < exprs.len()
            invariant
                i <= exprs@.len(),
                checked_all(start, exprs@, exprs@.len()) is Some,
                checked_all(start, exprs@, i as nat) == Some(self@),
            decreases exprs@.len() - i,
        {
            proof {
                all_before(start, exprs@, (i + 1) as nat, exprs@.len());
                assert(decreases_to!(exprs@ => exprs@[i as int]));
            }
            self.visit_expr(&exprs[i]);
            i += 1;
        }
    }

    fn visit_bindings(&mut self, bindings: &Vec<ValueBinding>)
        requires
            checked_bindings(old(self)@, bindings@, bindings@.len()) is Some,
        ensures
            checked_bindings(old(self)@, bindings@, bindings@.len()) == Some(final(self)@),
        decreases bindings@, 0nat,
    {
        let ghost first = self@;
        let mut i: usize = 0;
        while i < bindings.len()
            invariant
                i <= bindings@.len(),
                checked_bindings(first, bindings@, bindings@.len()) is Some,
                checked_bindings(first, bindings@, i as nat) == Some(self@),
            decreases bindings@.len() - i,
        {
            proof {
                bindings_before(first, bindings@, (i + 1) as nat, bindings@.len());
                assert(decreases_to!(bindings@ => bindings@[i as int]));
            }
            let start: usize = self.uninitialized_free_variables.len();
            let bind = &bindings[i];
            proof {
                checked_adds_uses(self@, bind.expr);
            }
            self.visit_expr(&bind.expr);
            if self.uninitialized_free_variables.len() > start {
                if let Pattern::Ident(id) = &bind.name.value {
                    if self.uses_of(start, &id.name).1 {
                        self.check_tail(&bind.expr);
                    } else {
                        assert(self@.faults + Seq::<Fault>::empty() =~= self@.faults);
                    }
                } else {
                    assert(self@.faults + Seq::<Fault>::empty() =~= self@.faults);
                }
                self.visit_pattern(&bind.name);
            }
            if let Pattern::Ident(id) = &bind.name.value {
                if self.uses_of(start, &id.name).0 {
                    self.initialize(&id.name);
                }
            }
            i += 1;
        }
    }

    #[verifier::rlimit(30)]
    fn visit_expr(&mut self, expr: &SpannedExpr)
        requires
            checked(old(self)@, *expr) is Some,
        ensures
            checked(old(self)@, *expr) == Some(final(self)@),
        decreases expr, 0nat,
    {
        let ghost before = self@;
        match &expr.value {
            Expr::Ident(id) => {
                self.check_ident(expr.span, &id.name);
            },
            Expr::LetBindings(bindings, body) => {
                let mut i: usize = 0;
                assert(before.uninitialized.union(Set::empty()) =~= before.uninitialized);
                while i < bindings.len()
                    invariant
                        i <= bindings@.len(),
                        self@ == (Checked {
                            uninitialized: before.uninitialized.union(
                                value_names(bindings@, i as nat),
                            ),
                            ..before
                        }),
                    decreases bindings@.len() - i,
                {
                    if bindings[i].args.len() == 0 {
                        if let Pattern::Ident(id) = &bindings[i].name.value {
                            self.taint(&id.name);
                        }
                    }
                    i += 1;
                    assert(self@.uninitialized =~= before.uninitialized.union(
                        value_names(bindings@, i as nat),
                    ));
                }
                self.visit_bindings(bindings);
                self.visit_expr(body);
            },
            Expr::TypeBindings(_, body) => {
                self.visit_expr(body);
            },
            Expr::Lambda(lambda) => {
                let mut saved: Vec<Symbol> = Vec::new();
                std::mem::swap(&mut saved, &mut self.uninitialized_values);
                assert(names(self.uninitialized_values@) =~= Set::<Seq<char>>::empty());
                self.visit_expr(&lambda.body);
                self.uninitialized_values = saved;
            },
            Expr::App(func, args) => {
                let start: usize = self.uninitialized_free_variables.len();
                proof {
                    checked_adds_uses(before, *expr);
                }
                self.visit_expr(func);
                proof {
                    checked_adds_uses(before, **func);
                    checked_all_adds_uses(self@, args@, args@.len());
                }
                self.visit_all(args);
                if !is_constructor_expr(expr) {
                    self.blame(start);
                }
            },
            Expr::Infix(lhs, op, rhs) => {
                let start: usize = self.uninitialized_free_variables.len();
                self.visit_expr(lhs);
                self.check_ident(op.span, &op.value.name);
                proof {
                    checked_adds_uses(before, **lhs);
                    checked_adds_uses(self@, **rhs);
                }
                self.visit_expr(rhs);
                self.blame(start);
            },
            Expr::Match(value, alts) => {
                let start: usize = self.uninitialized_free_variables.len();
                proof {
                    checked_adds_uses(before, **value);
                }
                self.visit_expr(value);
                self.blame(start);
                let ghost first = self@;
                let mut i: usize = 0;
                while i < alts.len()
                    invariant
                        i <= alts@.len(),
                        decreases_to!(expr => alts@),
                        checked_alternatives(first, alts@, alts@.len()) is Some,
                        checked_alternatives(first, alts@, i as nat) == Some(self@),
                    decreases alts@.len() - i,
                {
                    proof {
                        alternatives_before(first, alts@, (i + 1) as nat, alts@.len());
                        assert(decreases_to!(alts@ => alts@[i as int]));
                    }
                    self.visit_expr(&alts[i].expr);
                    i += 1;
                }
            },
            Expr::IfElse(pred, if_true, if_false) => {
                self.visit_expr(pred);
                self.visit_expr(if_true);
                self.visit_expr(if_false);
            },
            Expr::Projection(value, _, _) => {
                self.visit_expr(value);
            },
            Expr::Array(_, exprs) => {
                self.visit_all(exprs);
            },
            Expr::Record { typ: _, types: _, exprs, base } => {
                let mut i: usize = 0;
                while i < exprs.len()
                    invariant
                        i <= exprs@.len(),
                        decreases_to!(expr => exprs@),
                        checked_fields(before, exprs@, exprs@.len()) is Some,
                        checked_fields(before, exprs@, i as nat) == Some(self@),
                    decreases exprs@.len() - i,
                {
                    proof {
                        fields_before(before, exprs@, (i + 1) as nat, exprs@.len());
                        assert(decreases_to!(exprs@ => exprs@[i as int]));
                    }
                    match &exprs[i].value {
                        Some(value) => {
                            self.visit_expr(value);
                        },
                        None => {
                            self.check_ident(exprs[i].name.span, &exprs[i].name.value);
                        },
                    }
                    i += 1;
                }
                if let Some(base) = base {
                    self.visit_expr(base);
                }
            },
            Expr::Tuple { typ: _, elems } => {
                self.visit_all(elems);
            },
            Expr::Block(exprs) => {
                self.visit_all(exprs);
            },
            Expr::Do(do_expr) => {
                self.check_ident(do_expr.id.span, &do_expr.id.value.name);
                self.visit_expr(&do_expr.bound);
                self.visit_expr(&do_expr.body);
            },
            Expr::Literal(_) => {},
            Expr::Error => {},
        }
    }
}

/// `t` has all the uses and all the faults of `s`, and maybe more behind them.
pub open spec fn adds_to(s: Checked, t: Checked) -> bool {
    &&& s.uses.len() <= t.uses.len() && t.uses.take(s.uses.len() as int) == s.uses
    &&& s.faults.len() <= t.faults.len() && t.faults.take(s.faults.len() as int) == s.faults
}

pub(crate) proof fn adds_to_trans(a: Checked, b: Checked, c: Checked)
    requires
        adds_to(a, b),
        adds_to(b, c),
    ensures
        adds_to(a, c),
{
    assert(c.uses.take(a.uses.len() as int) =~= c.uses.take(b.uses.len() as int).take(
        a.uses.len() as int,
    ));
    assert(c.faults.take(a.faults.len() as int) =~= c.faults.take(b.faults.len() as int).take(
        a.faults.len() as int,
    ));
}

pub(crate) proof fn adds_to_self(s: Checked, uninitialized: Set<Seq<char>>)
    ensures
        adds_to(s, s),
        adds_to(s, Checked { uninitialized, ..s }),
{
    assert(s.uses.take(s.uses.len() as int) =~= s.uses);
    assert(s.faults.take(s.faults.len() as int) =~= s.faults);
}

pub(crate) proof fn used_adds(s: Checked, span: Span, name: Seq<char>)
    ensures
        adds_to(s, used(s, span, name)),
{
    adds_to_self(s, s.uninitialized);
    assert(s.uses.push(Use { span, name }).take(s.uses.len() as int) =~= s.uses);
}

pub(crate) proof fn blamed_adds(s: Checked, from: nat)
    ensures
        adds_to(s, blamed(s, from)),
{
    adds_to_self(s, s.uninitialized);
    assert(blamed(s, from).faults.take(s.faults.len() as int) =~= s.faults);
}

pub(crate) proof fn checked_all_adds_uses(s: Checked, exprs: Seq<SpannedExpr>, n: nat)
    ensures
        checked_all(s, exprs, n) matches Some(t) ==> adds_to(s, t),
    decreases exprs, n,
{
    adds_to_self(s, s.uninitialized);
    if n > 0 && n <= exprs.len() {
        checked_all_adds_uses(s, exprs, (n - 1) as nat);
        if let Some(t) = checked_all(s, exprs, (n - 1) as nat) {
            checked_adds_uses(t, exprs[n - 1]);
            if let Some(u) = checked(t, exprs[n - 1]) {
                adds_to_trans(s, t, u);
            }
        }
    }
}

pub(crate) proof fn checked_alternatives_adds_uses(s: Checked, alts: Seq<Alternative>, n: nat)
    ensures
        checked_alternatives(s, alts, n) matches Some(t) ==> adds_to(s, t),
    decreases alts, n,
{
    adds_to_self(s, s.uninitialized);
    if n > 0 && n <= alts.len() {
        checked_alternatives_adds_uses(s, alts, (n - 1) as nat);
        if let Some(t) = checked_alternatives(s, alts, (n - 1) as nat) {
            checked_adds_uses(t, alts[n - 1].expr);
            if let Some(u) = checked(t, alts[n - 1].expr) {
                adds_to_trans(s, t, u);
            }
        }
    }
}

pub(crate) proof fn checked_fields_adds_uses(s: Checked, fields: Seq<ExprField>, n: nat)
    ensures
        checked_fields(s, fields, n) matches Some(t) ==> adds_to(s, t),
    decreases fields, n,
{
    adds_to_self(s, s.uninitialized);
    if n > 0 && n <= fields.len() {
        checked_fields_adds_uses(s, fields, (n - 1) as nat);
        if let Some(t) = checked_fields(s, fields, (n - 1) as nat) {
            let field = fields[n - 1];
            match field.value {
                Some(expr) => {
                    checked_adds_uses(t, expr);
                    if let Some(u) = checked(t, expr) {
                        adds_to_trans(s, t, u);
                    }
                },
                None => {
                    used_adds(t, field.name.span, field.name.value@);
                    adds_to_trans(s, t, used(t, field.name.span, field.name.value@));
                },
            }
        }
    }
}

pub(crate) proof fn checked_binding_adds(s: Checked, from: nat, pattern: SpannedPattern, expr: SpannedExpr)
    ensures
        checked_binding(s, from, pattern, expr) matches Some(t) ==> adds_to(s, t),
{
    adds_to_self(s, s.uninitialized);
    if let Some(faults) = tail_faults(expr) {
        assert((s.faults + faults).take(s.faults.len() as int) =~= s.faults);
    }
    assert((s.faults + Seq::<Fault>::empty()).take(s.faults.len() as int) =~= s.faults);
}

pub(crate) proof fn checked_bindings_adds_uses(s: Checked, bindings: Seq<ValueBinding>, n: nat)
    ensures
        checked_bindings(s, bindings, n) matches Some(t) ==> adds_to(s, t),
    decreases bindings, n,
{
    adds_to_self(s, s.uninitialized);
    if n > 0 && n <= bindings.len() {
        checked_bindings_adds_uses(s, bindings, (n - 1) as nat);
        if let Some(t) = checked_bindings(s, bindings, (n - 1) as nat) {
            let bind = bindings[n - 1];
            checked_adds_uses(t, bind.expr);
            if let Some(u) = checked(t, bind.expr) {
                adds_to_trans(s, t, u);
                checked_binding_adds(u, t.uses.len(), bind.name, bind.expr);
                if let Some(v) = checked_binding(u, t.uses.len(), bind.name, bind.expr) {
                    adds_to_trans(s, u, v);
                }
            }
        }
    }
}

/// The check of an expression keeps all faults that were found before it, and adds to them.
#[verifier::rlimit(30)]
pub proof fn checked_adds_uses(s: Checked, expr: SpannedExpr)
    ensures
        checked(s, expr) matches Some(t) ==> adds_to(s, t),
    decreases expr, 0nat,
{
    adds_to_self(s, s.uninitialized);
    match expr.value {
        Expr::Ident(id) => {
            used_adds(s, expr.span, id.name@);
        },
        Expr::LetBindings(bindings, body) => {
            let start = Checked {
                uninitialized: s.uninitialized.union(value_names(bindings@, bindings@.len())),
                ..s
            };
            adds_to_self(s, start.uninitialized);
            checked_bindings_adds_uses(start, bindings@, bindings@.len());
            if let Some(t) = checked_bindings(start, bindings@, bindings@.len()) {
                adds_to_trans(s, start, t);
                checked_adds_uses(t, *body);
                if let Some(u) = checked(t, *body) {
                    adds_to_trans(s, t, u);
                }
            }
        },
        Expr::TypeBindings(_, body) => {
            checked_adds_uses(s, *body);
        },
        Expr::Lambda(lambda) => {
            let start = Checked { uninitialized: Set::empty(), ..s };
            adds_to_self(s, Set::empty());
            checked_adds_uses(start, *lambda.body);
            if let Some(t) = checked(start, *lambda.body) {
                adds_to_trans(s, start, t);
                adds_to_self(t, s.uninitialized);
                adds_to_trans(s, t, Checked { uninitialized: s.uninitialized, ..t });
            }
        },
        Expr::App(func, args) => {
            checked_adds_uses(s, *func);
            if let Some(t) = checked(s, *func) {
                checked_all_adds_uses(t, args@, args@.len());
                if let Some(u) = checked_all(t, args@, args@.len()) {
                    adds_to_trans(s, t, u);
                    blamed_adds(u, s.uses.len());
                    adds_to_trans(s, u, blamed(u, s.uses.len()));
                }
            }
        },
        Expr::Infix(lhs, op, rhs) => {
            checked_adds_uses(s, *lhs);
            if let Some(t) = checked(s, *lhs) {
                let t2 = used(t, op.span, op.value.name@);
                used_adds(t, op.span, op.value.name@);
                adds_to_trans(s, t, t2);
                checked_adds_uses(t2, *rhs);
                if let Some(u) = checked(t2, *rhs) {
                    adds_to_trans(s, t2, u);
                    blamed_adds(u, s.uses.len());
                    adds_to_trans(s, u, blamed(u, s.uses.len()));
                }
            }
        },
        Expr::Match(value, alts) => {
            checked_adds_uses(s, *value);
            if let Some(t) = checked(s, *value) {
                let t2 = blamed(t, s.uses.len());
                blamed_adds(t, s.uses.len());
                adds_to_trans(s, t, t2);
                checked_alternatives_adds_uses(t2, alts@, alts@.len());
                if let Some(u) = checked_alternatives(t2, alts@, alts@.len()) {
                    adds_to_trans(s, t2, u);
                }
            }
        },
        Expr::IfElse(pred, if_true, if_false) => {
            checked_adds_uses(s, *pred);
            if let Some(t) = checked(s, *pred) {
                checked_adds_uses(t, *if_true);
                if let Some(u) = checked(t, *if_true) {
                    adds_to_trans(s, t, u);
                    checked_adds_uses(u, *if_false);
                    if let Some(v) = checked(u, *if_false) {
                        adds_to_trans(s, u, v);
                    }
                }
            }
        },
        Expr::Projection(value, _, _) => {
            checked_adds_uses(s, *value);
        },
        Expr::Array(_, exprs) => {
            checked_all_adds_uses(s, exprs@, exprs@.len());
        },
        Expr::Record { typ: _, types: _, exprs, base } => {
            checked_fields_adds_uses(s, exprs@, exprs@.len());
            if let Some(t) = checked_fields(s, exprs@, exprs@.len()) {
                if let Some(base) = base {
                    checked_adds_uses(t, *base);
                    if let Some(u) = checked(t, *base) {
                        adds_to_trans(s, t, u);
                    }
                }
            }
        },
        Expr::Tuple { typ: _, elems } => {
            checked_all_adds_uses(s, elems@, elems@.len());
        },
        Expr::Block(exprs) => {
            checked_all_adds_uses(s, exprs@, exprs@.len());
        },
        Expr::Do(do_expr) => {
            let t = used(s, do_expr.id.span, do_expr.id.value.name@);
            used_adds(s, do_expr.id.span, do_expr.id.value.name@);
            checked_adds_uses(t, *do_expr.bound);
            if let Some(u) = checked(t, *do_expr.bound) {
                adds_to_trans(s, t, u);
                checked_adds_uses(u, *do_expr.body);
                if let Some(v) = checked(u, *do_expr.body) {
                    adds_to_trans(s, u, v);
                }
            }
        },
        _ => {},
    }
}

} // verus!
