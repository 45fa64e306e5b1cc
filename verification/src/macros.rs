//! The building blocks to create macros and expand them.

use std::rc::Rc;
use vstd::prelude::*;
use crate::ast::{Alternative, Expr, ExprField, SpannedExpr, ValueBinding};
use crate::pos::Spanned;
use crate::text::same;

verus! {

/// A trait which abstracts over macros.
///
/// A macro is similiar to a function call but is run at compile time instead of at runtime.
pub trait Macro<Env>: Sized {
    /// In the context `env` and with the arguments `before` the macro may return `res` and leave
    /// `after` as the arguments. A macro that does not say so may do anything.
    open spec fn expands(
        &self,
        env: &Env,
        before: Seq<SpannedExpr>,
        after: Seq<SpannedExpr>,
        res: Result<SpannedExpr, String>,
    ) -> bool {
        true
    }

    /// What a call with the arguments `arguments` stands for.
    fn expand(&self, env: &Env, arguments: &mut Vec<SpannedExpr>) -> (res: Result<
        SpannedExpr,
        String,
    >)
        ensures
            self.expands(env, old(arguments)@, final(arguments)@, res),
    ;
}

/// Type containing macros bound to symbols which can be applied on an AST expression to transform
/// it.
pub struct MacroEnv<M> {
    macros: Vec<(String, Rc<M>)>,
}

/// The macro that is bound to `name` last.
pub open spec fn bound_to<M>(macros: Seq<(Seq<char>, M)>, name: Seq<char>) -> Option<M>
    decreases macros.len(),
{
    if macros.len() == 0 {
        None
    } else if macros.last().0 == name {
        Some(macros.last().1)
    } else {
        bound_to(macros.drop_last(), name)
    }
}

/// The name that `expr` applies, if it is a call of an identifier.
pub open spec fn called_name(expr: SpannedExpr) -> Option<Seq<char>> {
    match expr.value {
        Expr::App(func, _) => match func.value {
            Expr::Ident(id) => Some(id.name@),
            _ => None,
        },
        _ => None,
    }
}

/// The macro that applies to `expr`.
pub open spec fn macro_of<M>(macros: Seq<(Seq<char>, M)>, expr: SpannedExpr) -> Option<M> {
    match called_name(expr) {
        Some(name) => bound_to(macros, name),
        None => None,
    }
}

impl<M> MacroEnv<M> {
    /// The macros in the order in which they were inserted.
    pub closed spec fn macros(&self) -> Seq<(Seq<char>, M)> {
        self.macros@.map_values(|entry: (String, Rc<M>)| (entry.0@, *entry.1))
    }

    /// Creates a new `MacroEnv`
    pub fn new() -> (res: MacroEnv<M>)
        ensures
            res.macros() == Seq::<(Seq<char>, M)>::empty(),
    {
        let res = MacroEnv { macros: Vec::new() };
        assert(res.macros() =~= Seq::<(Seq<char>, M)>::empty());
        res
    }

    /// Inserts a macro which acts on any call of `name`.
    pub fn insert(&mut self, name: String, mac: M)
        ensures
            final(self).macros() == old(self).macros().push((name@, mac)),
    {
        self.macros.push((name, Rc::new(mac)));
        assert(self.macros() =~= old(self).macros().push((name@, mac)));
    }

    /// Retrieves the macro bound to `name`
    pub fn get(&self, name: &str) -> (res: Option<Rc<M>>)
        ensures
            match res {
                Some(mac) => bound_to(self.macros(), name@) == Some(*mac),
                None => bound_to(self.macros(), name@) is None,
            },
    {
        let ghost all = self.macros();
        let mut i: usize = self.macros.len();
        assert(all.take(i as int) =~= all);
        while i > 0
            invariant
                i <= self.macros@.len(),
                all == self.macros(),
                bound_to(all.take(i as int), name@) == bound_to(all, name@),
            decreases i,
        {
            proof {
                assert(all.take(i as int).drop_last() =~= all.take(i - 1));
                assert(all.take(i as int).last() == all[i - 1]);
            }
            i -= 1;
            if same(self.macros[i].0.as_str(), name) {
                return Some(self.macros[i].1.clone());
            }
        }
        assert(all.take(0) =~= Seq::<(Seq<char>, M)>::empty());
        None
    }

    /// The macro that applies to `expr`.
    pub fn macro_for(&self, expr: &SpannedExpr) -> (res: Option<Rc<M>>)
        ensures
            match res {
                Some(mac) => macro_of(self.macros(), *expr) == Some(*mac),
                None => macro_of(self.macros(), *expr) is None,
            },
    {
        match &expr.value {
            Expr::App(func, _) => match &func.value {
                Expr::Ident(id) => self.get(id.name.as_str()),
                _ => None,
            },
            _ => None,
        }
    }
}

/// The values that the first `n` of `fields` are given.
pub open spec fn field_values(fields: Seq<ExprField>, n: nat) -> Seq<SpannedExpr>
    decreases n,
{
    if n == 0 || n > fields.len() {
        Seq::empty()
    } else {
        let before = field_values(fields, (n - 1) as nat);
        match fields[n - 1].value {
            Some(value) => before.push(value),
            None => before,
        }
    }
}

/// The expressions that `expr` is directly made of, in the order in which they are visited.
pub open spec fn parts(expr: SpannedExpr) -> Seq<SpannedExpr> {
    match expr.value {
        Expr::Ident(_) | Expr::Literal(_) | Expr::Error => Seq::empty(),
        Expr::App(func, args) => seq![*func] + args@,
        Expr::Lambda(lambda) => seq![*lambda.body],
        Expr::IfElse(pred, if_true, if_false) => seq![*pred, *if_true, *if_false],
        Expr::Match(value, alts) => seq![*value] + alt_exprs(alts@),
        Expr::Infix(lhs, _, rhs) => seq![*lhs, *rhs],
        Expr::Projection(value, _, _) => seq![*value],
        Expr::Array(_, elems) => elems@,
        Expr::Tuple { typ: _, elems } => elems@,
        Expr::Block(exprs) => exprs@,
        Expr::Record { typ: _, types: _, exprs, base } => field_values(exprs@, exprs@.len())
            + match base {
            Some(base) => seq![*base],
            None => Seq::empty(),
        },
        Expr::LetBindings(bindings, body) => binding_exprs(bindings@).push(*body),
        Expr::TypeBindings(_, body) => seq![*body],
        Expr::Do(do_) => seq![*do_.bound, *do_.body],
    }
}

/// `a` and `b` differ in the values of their fields at most.
pub open spec fn same_fields(a: Seq<ExprField>, b: Seq<ExprField>) -> bool {
    &&& a.len() == b.len()
    &&& forall|i: int|
        0 <= i < a.len() ==> (#[trigger] b[i]).name == a[i].name && b[i].value is Some
            == a[i].value is Some
}

/// `a` and `b` differ in their parts at most.
pub open spec fn same_frame(a: SpannedExpr, b: SpannedExpr) -> bool {
    &&& a.span == b.span
    &&& match (a.value, b.value) {
        (Expr::App(_, a), Expr::App(_, b)) => a@.len() == b@.len(),
        (Expr::Lambda(a), Expr::Lambda(b)) => a.id == b.id && a.args == b.args,
        (Expr::IfElse(..), Expr::IfElse(..)) => true,
        (Expr::Match(_, a), Expr::Match(_, b)) => a@.len() == b@.len() && forall|i: int|
            0 <= i < a@.len() ==> (#[trigger] b@[i]).pattern == a@[i].pattern,
        (Expr::Infix(_, a, _), Expr::Infix(_, b, _)) => a == b,
        (Expr::Projection(_, a, t), Expr::Projection(_, b, u)) => a == b && t == u,
        (Expr::Array(t, a), Expr::Array(u, b)) => t == u && a@.len() == b@.len(),
        (Expr::Tuple { typ: t, elems: a }, Expr::Tuple { typ: u, elems: b }) => t == u && a@.len()
            == b@.len(),
        (Expr::Block(a), Expr::Block(b)) => a@.len() == b@.len(),
        (
            Expr::Record { typ: t, types: a_types, exprs: a, base: a_base },
            Expr::Record { typ: u, types: b_types, exprs: b, base: b_base },
        ) => t == u && a_types == b_types && same_fields(a@, b@) && a_base is Some == b_base is Some,
        (Expr::LetBindings(a, _), Expr::LetBindings(b, _)) => a@.len() == b@.len() && forall|i: int|
            0 <= i < a@.len() ==> (#[trigger] b@[i]) == (ValueBinding { expr: b@[i].expr, ..a@[i] }),
        (Expr::TypeBindings(a, _), Expr::TypeBindings(b, _)) => a == b,
        (Expr::Do(a), Expr::Do(b)) => a.id == b.id,
        _ => a.value == b.value,
    }
}

proof fn field_values_decrease(fields: Seq<ExprField>, n: nat)
    requires
        n <= fields.len(),
    ensures
        forall|i: int|
            0 <= i < field_values(fields, n).len() ==> decreases_to!(
                fields => #[trigger] field_values(fields, n)[i]
            ),
    decreases n,
{
    if n > 0 {
        field_values_decrease(fields, (n - 1) as nat);
        assert(decreases_to!(fields => fields[n - 1]));
        let before = field_values(fields, (n - 1) as nat);
        assert forall|i: int| 0 <= i < field_values(fields, n).len() implies decreases_to!(
            fields => #[trigger] field_values(fields, n)[i]
        ) by {
            if i < before.len() {
                assert(field_values(fields, n)[i] == before[i]);
            }
        }
    }
}

pub proof fn parts_decrease(expr: SpannedExpr)
    ensures
        forall|i: int| 0 <= i < parts(expr).len() ==> decreases_to!(expr => #[trigger] parts(expr)[i]),
{
    assert forall|i: int| 0 <= i < parts(expr).len() implies decreases_to!(
        expr => #[trigger] parts(expr)[i]
    ) by {
        match expr.value {
            Expr::App(_, args) => {
                if i > 0 {
                    assert(decreases_to!(args@ => args@[i - 1]));
                }
            },
            Expr::Match(_, alts) => {
                if i > 0 {
                    assert(decreases_to!(alts@ => alts@[i - 1]));
                }
            },
            Expr::Array(_, elems) => {
                assert(decreases_to!(elems@ => elems@[i]));
            },
            Expr::Tuple { typ: _, elems } => {
                assert(decreases_to!(elems@ => elems@[i]));
            },
            Expr::Block(exprs) => {
                assert(decreases_to!(exprs@ => exprs@[i]));
            },
            Expr::Record { typ: _, types: _, exprs, base } => {
                field_values_decrease(exprs@, exprs@.len());
            },
            Expr::LetBindings(bindings, _) => {
                if i < bindings@.len() {
                    assert(decreases_to!(bindings@ => bindings@[i]));
                }
            },
            _ => {},
        }
    }
}

/// The arguments of the call `expr`.
pub open spec fn arguments(expr: SpannedExpr) -> Seq<SpannedExpr> {
    match expr.value {
        Expr::App(_, args) => args@,
        _ => Seq::empty(),
    }
}

/// `after` is the call `expr` with the arguments `args`.
pub open spec fn with_arguments(
    expr: SpannedExpr,
    args: Seq<SpannedExpr>,
    after: SpannedExpr,
) -> bool {
    &&& after.span == expr.span
    &&& match (expr.value, after.value) {
        (Expr::App(func, _), Expr::App(after_func, after_args)) => after_func == func && after_args@
            == args,
        _ => false,
    }
}

/// The macro that applies to `expr` may make `after` of it, and report `errors`. Its expansion stands
/// at the place of the call. Where there is none the call stays.
pub open spec fn replaced<Env, M: Macro<Env>>(
    macros: Seq<(Seq<char>, M)>,
    env: &Env,
    expr: SpannedExpr,
    after: SpannedExpr,
    errors: Seq<String>,
) -> bool {
    let mac = macro_of(macros, expr);
    mac is Some && exists|args: Seq<SpannedExpr>, res: Result<SpannedExpr, String>| #[trigger]
        (mac->0).expands(env, arguments(expr), args, res) && match res {
            Ok(expansion) => after == (Spanned { span: expr.span, value: expansion.value })
                && errors.len() == 0,
            Err(error) => with_arguments(expr, args, after) && errors == seq![error],
        }
}

/// After at most `n` expansions, one inside what came of the other, all macros in `expr` are
/// expanded, whatever they return.
pub open spec fn ends_within<Env, M: Macro<Env>>(
    n: nat,
    macros: Seq<(Seq<char>, M)>,
    env: &Env,
    expr: SpannedExpr,
) -> bool
    decreases n, expr,
    via ends_within_ends::<Env, M>
{
    match macro_of(macros, expr) {
        None => forall|i: int|
            0 <= i < parts(expr).len() ==> ends_within(n, macros, env, #[trigger] parts(expr)[i]),
        Some(_) => n > 0 && forall|after: SpannedExpr, errors: Seq<String>, i: int|
            #[trigger] replaced(macros, env, expr, after, errors) && 0 <= i < parts(after).len()
                ==> ends_within(
                (n - 1) as nat,
                macros,
                env,
                #[trigger] parts(after)[i],
            ),
    }
}

#[via_fn]
proof fn ends_within_ends<Env, M: Macro<Env>>(
    n: nat,
    macros: Seq<(Seq<char>, M)>,
    env: &Env,
    expr: SpannedExpr,
) {
    parts_decrease(expr);
}

/// `turns` are the errors before the first and behind each of `n` visits, from `before` to `after`.
pub open spec fn in_turn(
    turns: Seq<Seq<String>>,
    n: nat,
    before: Seq<String>,
    after: Seq<String>,
) -> bool {
    turns.len() == n + 1 && turns[0] == before && turns[n as int] == after
}

/// Visiting `expr` may make `after` of it, through at most `n` expansions one inside what came of the
/// other. The errors are `before` the visit and `errors` behind it. Where a macro applies to `expr` it
/// is expanded first. Then the parts are visited in order.
pub open spec fn visited<Env, M: Macro<Env>>(
    n: nat,
    macros: Seq<(Seq<char>, M)>,
    env: &Env,
    expr: SpannedExpr,
    after: SpannedExpr,
    before: Seq<String>,
    errors: Seq<String>,
) -> bool
    decreases n, expr,
    via visited_ends::<Env, M>
{
    match macro_of(macros, expr) {
        None => same_frame(expr, after) && parts(after).len() == parts(expr).len() && exists|
            turns: Seq<Seq<String>>,
        | #[trigger]
            in_turn(turns, parts(expr).len(), before, errors) && forall|i: int|
                0 <= i < parts(expr).len() ==> visited(
                    n,
                    macros,
                    env,
                    #[trigger] parts(expr)[i],
                    parts(after)[i],
                    turns[i],
                    turns[i + 1],
                ),
        Some(_) => n > 0 && exists|
            mid: SpannedExpr,
            reported: Seq<String>,
            turns: Seq<Seq<String>>,
        |
            #[trigger] replaced(macros, env, expr, mid, reported) && #[trigger] in_turn(
                turns,
                parts(mid).len(),
                before + reported,
                errors,
            ) && same_frame(mid, after) && parts(after).len() == parts(mid).len() && forall|i: int|
                0 <= i < parts(mid).len() ==> visited(
                    (n - 1) as nat,
                    macros,
                    env,
                    #[trigger] parts(mid)[i],
                    parts(after)[i],
                    turns[i],
                    turns[i + 1],
                ),
    }
}

#[via_fn]
proof fn visited_ends<Env, M: Macro<Env>>(
    n: nat,
    macros: Seq<(Seq<char>, M)>,
    env: &Env,
    expr: SpannedExpr,
    after: SpannedExpr,
    before: Seq<String>,
    errors: Seq<String>,
) {
    parts_decrease(expr);
}

/// Expanding the macros in `expr` may make `after` of it, through at most `n` expansions one inside
/// what came of the other, and report `errors`.
pub open spec fn expanded_to<Env, M: Macro<Env>>(
    n: nat,
    macros: Seq<(Seq<char>, M)>,
    env: &Env,
    expr: SpannedExpr,
    after: SpannedExpr,
    errors: Seq<String>,
) -> bool {
    visited(n, macros, env, expr, after, Seq::empty(), errors)
}

/// Visiting `ts` one after the other may make `us` of them.
spec fn all_visited<Env, M: Macro<Env>>(
    n: nat,
    macros: Seq<(Seq<char>, M)>,
    env: &Env,
    ts: Seq<SpannedExpr>,
    us: Seq<SpannedExpr>,
    before: Seq<String>,
    errors: Seq<String>,
) -> bool {
    us.len() == ts.len() && exists|turns: Seq<Seq<String>>| #[trigger]
        in_turn(turns, ts.len(), before, errors) && forall|i: int|
            0 <= i < ts.len() ==> visited(
                n,
                macros,
                env,
                #[trigger] ts[i],
                us[i],
                turns[i],
                turns[i + 1],
            )
}

spec fn all_end<Env, M: Macro<Env>>(
    n: nat,
    macros: Seq<(Seq<char>, M)>,
    env: &Env,
    ts: Seq<SpannedExpr>,
) -> bool {
    forall|i: int| 0 <= i < ts.len() ==> ends_within(n, macros, env, #[trigger] ts[i])
}

proof fn none_visited<Env, M: Macro<Env>>(
    n: nat,
    macros: Seq<(Seq<char>, M)>,
    env: &Env,
    errors: Seq<String>,
)
    ensures
        all_visited(
            n,
            macros,
            env,
            Seq::<SpannedExpr>::empty(),
            Seq::<SpannedExpr>::empty(),
            errors,
            errors,
        ),
{
    let none = Seq::<SpannedExpr>::empty();
    assert(in_turn(seq![errors], none.len(), errors, errors));
}

proof fn one_more_visited<Env, M: Macro<Env>>(
    n: nat,
    macros: Seq<(Seq<char>, M)>,
    env: &Env,
    ts: Seq<SpannedExpr>,
    us: Seq<SpannedExpr>,
    t: SpannedExpr,
    u: SpannedExpr,
    before: Seq<String>,
    mid: Seq<String>,
    errors: Seq<String>,
)
    requires
        all_visited(n, macros, env, ts, us, before, mid),
        visited(n, macros, env, t, u, mid, errors),
    ensures
        all_visited(n, macros, env, ts.push(t), us.push(u), before, errors),
{
    let turns = choose|turns: Seq<Seq<String>>| #[trigger]
        in_turn(turns, ts.len(), before, mid) && forall|i: int|
            0 <= i < ts.len() ==> visited(
                n,
                macros,
                env,
                #[trigger] ts[i],
                us[i],
                turns[i],
                turns[i + 1],
            );
    let more = turns.push(errors);
    assert(in_turn(more, ts.push(t).len(), before, errors));
    assert forall|i: int| 0 <= i < ts.push(t).len() implies visited(
        n,
        macros,
        env,
        #[trigger] ts.push(t)[i],
        us.push(u)[i],
        more[i],
        more[i + 1],
    ) by {
        if i < ts.len() {
            assert(visited(n, macros, env, ts[i], us[i], turns[i], turns[i + 1]));
        }
    }
}

proof fn one_visited<Env, M: Macro<Env>>(
    n: nat,
    macros: Seq<(Seq<char>, M)>,
    env: &Env,
    t: SpannedExpr,
    u: SpannedExpr,
    before: Seq<String>,
    errors: Seq<String>,
)
    requires
        visited(n, macros, env, t, u, before, errors),
    ensures
        all_visited(n, macros, env, seq![t], seq![u], before, errors),
{
    let none = Seq::<SpannedExpr>::empty();
    none_visited(n, macros, env, before);
    one_more_visited(n, macros, env, none, none, t, u, before, before, errors);
    assert(none.push(t) =~= seq![t]);
    assert(none.push(u) =~= seq![u]);
}

proof fn both_visited<Env, M: Macro<Env>>(
    n: nat,
    macros: Seq<(Seq<char>, M)>,
    env: &Env,
    ts: Seq<SpannedExpr>,
    us: Seq<SpannedExpr>,
    more_ts: Seq<SpannedExpr>,
    more_us: Seq<SpannedExpr>,
    before: Seq<String>,
    mid: Seq<String>,
    errors: Seq<String>,
)
    requires
        all_visited(n, macros, env, ts, us, before, mid),
        all_visited(n, macros, env, more_ts, more_us, mid, errors),
    ensures
        all_visited(n, macros, env, ts + more_ts, us + more_us, before, errors),
    decreases more_ts.len(),
{
    let turns = choose|turns: Seq<Seq<String>>| #[trigger]
        in_turn(turns, more_ts.len(), mid, errors) && forall|i: int|
            0 <= i < more_ts.len() ==> visited(
                n,
                macros,
                env,
                #[trigger] more_ts[i],
                more_us[i],
                turns[i],
                turns[i + 1],
            );
    if more_ts.len() == 0 {
        assert(ts + more_ts =~= ts);
        assert(us + more_us =~= us);
    } else {
        let (t, u) = (more_ts.last(), more_us.last());
        let last = turns[more_ts.len() - 1];
        let (ts2, us2) = (more_ts.drop_last(), more_us.drop_last());
        let turns2 = turns.drop_last();
        assert(in_turn(turns2, ts2.len(), mid, last));
        assert forall|i: int| 0 <= i < ts2.len() implies visited(
            n,
            macros,
            env,
            #[trigger] ts2[i],
            us2[i],
            turns2[i],
            turns2[i + 1],
        ) by {
            assert(ts2[i] == more_ts[i]);
        }
        both_visited(n, macros, env, ts, us, ts2, us2, before, mid, last);
        assert(more_ts[more_ts.len() - 1] == t);
        one_more_visited(n, macros, env, ts + ts2, us + us2, t, u, before, last, errors);
        assert((ts + ts2).push(t) =~= ts + more_ts);
        assert((us + us2).push(u) =~= us + more_us);
    }
}

proof fn parts_end<Env, M: Macro<Env>>(
    n: nat,
    macros: Seq<(Seq<char>, M)>,
    env: &Env,
    expr: SpannedExpr,
    mid: SpannedExpr,
    reported: Seq<String>,
)
    requires
        ends_within(n, macros, env, expr),
        replaced(macros, env, expr, mid, reported),
    ensures
        n > 0,
        all_end((n - 1) as nat, macros, env, parts(mid)),
{
}

proof fn replaced_visited<Env, M: Macro<Env>>(
    n: nat,
    macros: Seq<(Seq<char>, M)>,
    env: &Env,
    expr: SpannedExpr,
    mid: SpannedExpr,
    reported: Seq<String>,
    after: SpannedExpr,
    before: Seq<String>,
    errors: Seq<String>,
)
    requires
        n > 0,
        replaced(macros, env, expr, mid, reported),
        same_frame(mid, after),
        all_visited(
            (n - 1) as nat,
            macros,
            env,
            parts(mid),
            parts(after),
            before + reported,
            errors,
        ),
    ensures
        visited(n, macros, env, expr, after, before, errors),
{
    let m = (n - 1) as nat;
    let turns = choose|turns: Seq<Seq<String>>| #[trigger]
        in_turn(turns, parts(mid).len(), before + reported, errors) && forall|i: int|
            0 <= i < parts(mid).len() ==> visited(
                m,
                macros,
                env,
                #[trigger] parts(mid)[i],
                parts(after)[i],
                turns[i],
                turns[i + 1],
            );
    assert(in_turn(turns, parts(mid).len(), before + reported, errors));
}

/// The expressions of `alts`.
pub open spec fn alt_exprs(alts: Seq<Alternative>) -> Seq<SpannedExpr> {
    alts.map_values(|alt: Alternative| alt.expr)
}

/// The expressions of `bindings`.
pub open spec fn binding_exprs(bindings: Seq<ValueBinding>) -> Seq<SpannedExpr> {
    bindings.map_values(|binding: ValueBinding| binding.expr)
}

proof fn value_position(fields: Seq<ExprField>, i: nat, n: nat)
    requires
        i < n <= fields.len(),
        fields[i as int].value is Some,
    ensures
        field_values(fields, i).len() < field_values(fields, n).len(),
        field_values(fields, n)[field_values(fields, i).len() as int] == fields[i as int].value->0,
    decreases n,
{
    if i + 1 < n {
        value_position(fields, i, (n - 1) as nat);
    }
}

proof fn same_values(a: Seq<ExprField>, b: Seq<ExprField>, n: nat)
    requires
        n <= a.len(),
        n <= b.len(),
        forall|i: int| 0 <= i < n ==> #[trigger] b[i] == a[i],
    ensures
        field_values(b, n) == field_values(a, n),
    decreases n,
{
    if n > 0 {
        same_values(a, b, (n - 1) as nat);
        assert(b[n - 1] == a[n - 1]);
    }
}

impl<M> MacroEnv<M> {
    /// Runs the macros in this `MacroEnv` on `expr` using `env` as the context of the expansion
    pub fn run<Env>(&self, env: &Env, expr: &mut SpannedExpr) -> (res: Result<
        (),
        Vec<String>,
    >) where M: Macro<Env>
        requires
            exists|n: nat| ends_within(n, self.macros(), env, *old(expr)),
        ensures
            exists|n: nat, errors: Seq<String>| #[trigger]
                expanded_to(n, self.macros(), env, *old(expr), *final(expr), errors) && (res is Ok
                    <==> errors.len() == 0) && (res matches Err(reported) ==> reported@ == errors),
    {
        let ghost n = choose|n: nat| ends_within(n, self.macros(), env, *expr);
        let mut errors: Vec<String> = Vec::new();
        assert(errors@ =~= Seq::<String>::empty());
        self.visit_expr(env, expr, &mut errors, Ghost(n));
        assert(expanded_to(n, self.macros(), env, *old(expr), *expr, errors@));
        if errors.len() > 0 {
            Err(errors)
        } else {
            Ok(())
        }
    }

    fn visit_expr<Env>(
        &self,
        env: &Env,
        expr: &mut SpannedExpr,
        errors: &mut Vec<String>,
        Ghost(n): Ghost<nat>,
    ) where M: Macro<Env>
        requires
            ends_within(n, self.macros(), env, *old(expr)),
        ensures
            visited(
                n,
                self.macros(),
                env,
                *old(expr),
                *final(expr),
                old(errors)@,
                final(errors)@,
            ),
        decreases n, *old(expr), 2nat,
    {
        match self.macro_for(expr) {
            Some(mac) => {
                let ghost mut left: Seq<SpannedExpr> = Seq::empty();
                let ghost mut got: Option<Result<SpannedExpr, String>> = None;
                let replacement = match &mut expr.value {
                    Expr::App(_, args) => {
                        let res = mac.expand(env, args);
                        proof {
                            left = args@;
                            got = Some(res);
                        }
                        match res {
                            Ok(expansion) => Some(expansion),
                            Err(error) => {
                                errors.push(error);
                                None
                            },
                        }
                    },
                    _ => None,
                };
                if let Some(expansion) = replacement {
                    *expr = Spanned { span: expr.span, value: expansion.value };
                }
                let ghost mid = *expr;
                let ghost reported = errors@.skip(old(errors)@.len() as int);
                proof {
                    assert(errors@ =~= old(errors)@ + reported);
                    let applied = macro_of(self.macros(), *old(expr));
                    assert(applied == Some(*mac));
                    assert((applied->0).expands(env, arguments(*old(expr)), left, got->0));
                    if let Some(Err(error)) = got {
                        assert(reported =~= seq![error]);
                    }
                    assert(replaced(self.macros(), env, *old(expr), mid, reported));
                    parts_end(n, self.macros(), env, *old(expr), mid, reported);
                }
                self.visit_parts(env, expr, errors, Ghost((n - 1) as nat));
                proof {
                    replaced_visited(
                        n,
                        self.macros(),
                        env,
                        *old(expr),
                        mid,
                        reported,
                        *expr,
                        old(errors)@,
                        errors@,
                    );
                }
            },
            None => {
                self.visit_parts(env, expr, errors, Ghost(n));
            },
        }
    }

    /// Visits the parts of `expr` in order.
    fn visit_parts<Env>(
        &self,
        env: &Env,
        expr: &mut SpannedExpr,
        errors: &mut Vec<String>,
        Ghost(n): Ghost<nat>,
    ) where M: Macro<Env>
        requires
            all_end(n, self.macros(), env, parts(*old(expr))),
        ensures
            same_frame(*old(expr), *final(expr)),
            all_visited(
                n,
                self.macros(),
                env,
                parts(*old(expr)),
                parts(*final(expr)),
                old(errors)@,
                final(errors)@,
            ),
        decreases n, *old(expr), 1nat,
    {
        let ghost macros = self.macros();
        let ghost start = errors@;
        let ghost ts = parts(*expr);
        proof {
            parts_decrease(*expr);
            none_visited(n, macros, env, start);
        }
        match &mut expr.value {
            Expr::Ident(_) | Expr::Literal(_) | Expr::Error => {},
            Expr::App(func, args) => {
                let ghost (f, a) = (**func, args@);
                assert(ts[0] == f);
                assert forall|i: int| 0 <= i < a.len() implies ends_within(
                    n,
                    macros,
                    env,
                    #[trigger] a[i],
                ) by {
                    assert(ts[i + 1] == a[i]);
                }
                self.visit_expr(env, func, errors, Ghost(n));
                let ghost mid = errors@;
                let ghost g = **func;
                self.visit_exprs(env, args, errors, Ghost(n));
                proof {
                    one_visited(n, macros, env, f, g, start, mid);
                    both_visited(n, macros, env, seq![f], seq![g], a, args@, start, mid, errors@);
                }
            },
            Expr::Lambda(lambda) => {
                let ghost f = *lambda.body;
                assert(ts[0] == f);
                self.visit_expr(env, &mut lambda.body, errors, Ghost(n));
                proof {
                    one_visited(n, macros, env, f, *lambda.body, start, errors@);
                }
            },
            Expr::IfElse(pred, if_true, if_false) => {
                let ghost (p, t, f) = (**pred, **if_true, **if_false);
                assert(ts[0] == p && ts[1] == t && ts[2] == f);
                self.visit_expr(env, pred, errors, Ghost(n));
                let ghost (mid, p2) = (errors@, **pred);
                self.visit_expr(env, if_true, errors, Ghost(n));
                let ghost (mid2, t2) = (errors@, **if_true);
                self.visit_expr(env, if_false, errors, Ghost(n));
                proof {
                    one_visited(n, macros, env, p, p2, start, mid);
                    one_more_visited(n, macros, env, seq![p], seq![p2], t, t2, start, mid, mid2);
                    let (ts2, us2) = (seq![p].push(t), seq![p2].push(t2));
                    one_more_visited(
                        n,
                        macros,
                        env,
                        ts2,
                        us2,
                        f,
                        **if_false,
                        start,
                        mid2,
                        errors@,
                    );
                    assert(ts2.push(f) =~= ts);
                    assert(us2.push(**if_false) =~= seq![p2, t2, **if_false]);
                }
            },
            Expr::Match(value, alts) => {
                let ghost (v, a) = (**value, alt_exprs(alts@));
                assert(ts[0] == v);
                assert forall|i: int| 0 <= i < a.len() implies ends_within(
                    n,
                    macros,
                    env,
                    #[trigger] a[i],
                ) by {
                    assert(ts[i + 1] == a[i]);
                }
                self.visit_expr(env, value, errors, Ghost(n));
                let ghost (mid, w) = (errors@, **value);
                self.visit_alternatives(env, alts, errors, Ghost(n));
                proof {
                    let b = alt_exprs(alts@);
                    one_visited(n, macros, env, v, w, start, mid);
                    both_visited(n, macros, env, seq![v], seq![w], a, b, start, mid, errors@);
                }
            },
            Expr::Infix(lhs, _, rhs) => {
                let ghost (l, r) = (**lhs, **rhs);
                assert(ts[0] == l && ts[1] == r);
                self.visit_expr(env, lhs, errors, Ghost(n));
                let ghost (mid, l2) = (errors@, **lhs);
                self.visit_expr(env, rhs, errors, Ghost(n));
                proof {
                    one_visited(n, macros, env, l, l2, start, mid);
                    one_more_visited(
                        n,
                        macros,
                        env,
                        seq![l],
                        seq![l2],
                        r,
                        **rhs,
                        start,
                        mid,
                        errors@,
                    );
                    assert(seq![l].push(r) =~= ts);
                    assert(seq![l2].push(**rhs) =~= seq![l2, **rhs]);
                }
            },
            Expr::Projection(value, _, _) => {
                let ghost f = **value;
                assert(ts[0] == f);
                self.visit_expr(env, value, errors, Ghost(n));
                proof {
                    one_visited(n, macros, env, f, **value, start, errors@);
                }
            },
            Expr::Array(_, elems) => {
                self.visit_exprs(env, elems, errors, Ghost(n));
            },
            Expr::Tuple { typ: _, elems } => {
                self.visit_exprs(env, elems, errors, Ghost(n));
            },
            Expr::Block(exprs) => {
                self.visit_exprs(env, exprs, errors, Ghost(n));
            },
            Expr::Record { typ: _, types: _, exprs, base } => {
                let ghost a = field_values(exprs@, exprs@.len());
                assert forall|i: int| 0 <= i < a.len() implies ends_within(
                    n,
                    macros,
                    env,
                    #[trigger] a[i],
                ) by {
                    assert(ts[i] == a[i]);
                }
                self.visit_fields(env, exprs, errors, Ghost(n));
                let ghost (mid, b) = (errors@, field_values(exprs@, exprs@.len()));
                match base {
                    Some(base) => {
                        let ghost v = **base;
                        assert(ts[a.len() as int] == v);
                        self.visit_expr(env, base, errors, Ghost(n));
                        proof {
                            one_more_visited(
                                n,
                                macros,
                                env,
                                a,
                                b,
                                v,
                                **base,
                                start,
                                mid,
                                errors@,
                            );
                            assert(a.push(v) =~= ts);
                            assert(b.push(**base) =~= b + seq![**base]);
                        }
                    },
                    None => {
                        assert(ts =~= a);
                        assert(b + Seq::<SpannedExpr>::empty() =~= b);
                    },
                }
            },
            Expr::LetBindings(bindings, body) => {
                let ghost (a, v) = (binding_exprs(bindings@), **body);
                assert(ts[a.len() as int] == v);
                assert forall|i: int| 0 <= i < a.len() implies ends_within(
                    n,
                    macros,
                    env,
                    #[trigger] a[i],
                ) by {
                    assert(ts[i] == a[i]);
                }
                self.visit_bindings(env, bindings, errors, Ghost(n));
                let ghost (mid, b) = (errors@, binding_exprs(bindings@));
                self.visit_expr(env, body, errors, Ghost(n));
                proof {
                    one_more_visited(n, macros, env, a, b, v, **body, start, mid, errors@);
                }
            },
            Expr::TypeBindings(_, body) => {
                let ghost f = **body;
                assert(ts[0] == f);
                self.visit_expr(env, body, errors, Ghost(n));
                proof {
                    one_visited(n, macros, env, f, **body, start, errors@);
                }
            },
            Expr::Do(do_) => {
                let ghost (l, r) = (*do_.bound, *do_.body);
                assert(ts[0] == l && ts[1] == r);
                self.visit_expr(env, &mut do_.bound, errors, Ghost(n));
                let ghost (mid, l2) = (errors@, *do_.bound);
                self.visit_expr(env, &mut do_.body, errors, Ghost(n));
                proof {
                    let r2 = *do_.body;
                    one_visited(n, macros, env, l, l2, start, mid);
                    one_more_visited(n, macros, env, seq![l], seq![l2], r, r2, start, mid, errors@);
                    assert(seq![l].push(r) =~= ts);
                    assert(seq![l2].push(r2) =~= seq![l2, r2]);
                }
            },
        }
    }

    fn visit_exprs<Env>(
        &self,
        env: &Env,
        exprs: &mut Vec<SpannedExpr>,
        errors: &mut Vec<String>,
        Ghost(n): Ghost<nat>,
    ) where M: Macro<Env>
        requires
            all_end(n, self.macros(), env, old(exprs)@),
        ensures
            all_visited(
                n,
                self.macros(),
                env,
                old(exprs)@,
                final(exprs)@,
                old(errors)@,
                final(errors)@,
            ),
        decreases n, old(exprs)@, 0nat,
    {
        let ghost macros = self.macros();
        let ghost start = errors@;
        let ghost ts = exprs@;
        proof {
            none_visited(n, macros, env, start);
            assert(ts.take(0) =~= Seq::<SpannedExpr>::empty());
        }
        let mut i: usize = 0;
        while i < exprs.len()
            invariant
                i <= exprs@.len(),
                exprs@.len() == ts.len(),
                ts == old(exprs)@,
                macros == self.macros(),
                all_end(n, macros, env, ts),
                forall|j: int| i <= j < ts.len() ==> #[trigger] exprs@[j] == ts[j],
                all_visited(
                    n,
                    macros,
                    env,
                    ts.take(i as int),
                    exprs@.take(i as int),
                    start,
                    errors@,
                ),
            decreases exprs@.len() - i,
        {
            let ghost mid = errors@;
            let ghost before = exprs@;
            assert(exprs@[i as int] == ts[i as int]);
            assert(decreases_to!(ts => ts[i as int]));
            self.visit_expr(env, &mut exprs[i], errors, Ghost(n));
            proof {
                let (t, u) = (ts[i as int], exprs@[i as int]);
                one_more_visited(
                    n,
                    macros,
                    env,
                    ts.take(i as int),
                    before.take(i as int),
                    t,
                    u,
                    start,
                    mid,
                    errors@,
                );
                assert(ts.take(i + 1) =~= ts.take(i as int).push(t));
                assert(exprs@.take(i + 1) =~= before.take(i as int).push(u));
            }
            i += 1;
        }
        assert(ts.take(i as int) =~= ts);
        assert(exprs@.take(i as int) =~= exprs@);
    }

    fn visit_alternatives<Env>(
        &self,
        env: &Env,
        items: &mut Vec<Alternative>,
        errors: &mut Vec<String>,
        Ghost(n): Ghost<nat>,
    ) where M: Macro<Env>
        requires
            all_end(n, self.macros(), env, alt_exprs(old(items)@)),
        ensures
            final(items)@.len() == old(items)@.len(),
            forall|i: int|
                0 <= i < old(items)@.len() ==> (#[trigger] final(items)@[i]).pattern == old(items)@[i].pattern,
            all_visited(
                n,
                self.macros(),
                env,
                alt_exprs(old(items)@),
                alt_exprs(final(items)@),
                old(errors)@,
                final(errors)@,
            ),
        decreases n, old(items)@, 0nat,
    {
        let ghost macros = self.macros();
        let ghost start = errors@;
        let ghost all = items@;
        let ghost ts = alt_exprs(all);
        proof {
            none_visited(n, macros, env, start);
            assert(ts.take(0) =~= Seq::<SpannedExpr>::empty());
            assert(alt_exprs(items@).take(0) =~= Seq::<SpannedExpr>::empty());
        }
        let mut i: usize = 0;
        while i < items.len()
            invariant
                i <= items@.len(),
                items@.len() == all.len(),
                all == old(items)@,
                ts == alt_exprs(all),
                macros == self.macros(),
                all_end(n, macros, env, ts),
                forall|j: int| i <= j < all.len() ==> #[trigger] items@[j] == all[j],
                forall|j: int|
                    0 <= j < i ==> (#[trigger] items@[j]).pattern == all[j].pattern,
                all_visited(
                    n,
                    macros,
                    env,
                    ts.take(i as int),
                    alt_exprs(items@).take(i as int),
                    start,
                    errors@,
                ),
            decreases items@.len() - i,
        {
            let ghost mid = errors@;
            let ghost before = items@;
            assert(items@[i as int] == all[i as int]);
            assert(ts[i as int] == all[i as int].expr);
            assert(decreases_to!(all => all[i as int]));
            self.visit_expr(env, &mut items[i].expr, errors, Ghost(n));
            proof {
                let (t, u) = (ts[i as int], items@[i as int].expr);
                let done = alt_exprs(before).take(i as int);
                one_more_visited(
                    n,
                    macros,
                    env,
                    ts.take(i as int),
                    done,
                    t,
                    u,
                    start,
                    mid,
                    errors@,
                );
                assert(ts.take(i + 1) =~= ts.take(i as int).push(t));
                assert(alt_exprs(items@).take(i + 1) =~= done.push(u));
            }
            i += 1;
        }
        assert(ts.take(i as int) =~= ts);
        assert(alt_exprs(items@).take(i as int) =~= alt_exprs(items@));
    }

    fn visit_bindings<Env>(
        &self,
        env: &Env,
        items: &mut Vec<ValueBinding>,
        errors: &mut Vec<String>,
        Ghost(n): Ghost<nat>,
    ) where M: Macro<Env>
        requires
            all_end(n, self.macros(), env, binding_exprs(old(items)@)),
        ensures
            final(items)@.len() == old(items)@.len(),
            forall|i: int|
                0 <= i < old(items)@.len() ==> (#[trigger] final(items)@[i]) == (ValueBinding {
                    expr: final(items)@[i].expr,
                    ..old(items)@[i]
                }),
            all_visited(
                n,
                self.macros(),
                env,
                binding_exprs(old(items)@),
                binding_exprs(final(items)@),
                old(errors)@,
                final(errors)@,
            ),
        decreases n, old(items)@, 0nat,
    {
        let ghost macros = self.macros();
        let ghost start = errors@;
        let ghost all = items@;
        let ghost ts = binding_exprs(all);
        proof {
            none_visited(n, macros, env, start);
            assert(ts.take(0) =~= Seq::<SpannedExpr>::empty());
            assert(binding_exprs(items@).take(0) =~= Seq::<SpannedExpr>::empty());
        }
        let mut i: usize = 0;
        while i < items.len()
            invariant
                i <= items@.len(),
                items@.len() == all.len(),
                all == old(items)@,
                ts == binding_exprs(all),
                macros == self.macros(),
                all_end(n, macros, env, ts),
                forall|j: int| i <= j < all.len() ==> #[trigger] items@[j] == all[j],
                forall|j: int|
                    0 <= j < i ==> (#[trigger] items@[j]) == (ValueBinding {
                        expr: items@[j].expr,
                        ..all[j]
                    }),
                all_visited(
                    n,
                    macros,
                    env,
                    ts.take(i as int),
                    binding_exprs(items@).take(i as int),
                    start,
                    errors@,
                ),
            decreases items@.len() - i,
        {
            let ghost mid = errors@;
            let ghost before = items@;
            assert(items@[i as int] == all[i as int]);
            assert(ts[i as int] == all[i as int].expr);
            assert(decreases_to!(all => all[i as int]));
            self.visit_expr(env, &mut items[i].expr, errors, Ghost(n));
            proof {
                let (t, u) = (ts[i as int], items@[i as int].expr);
                let done = binding_exprs(before).take(i as int);
                one_more_visited(
                    n,
                    macros,
                    env,
                    ts.take(i as int),
                    done,
                    t,
                    u,
                    start,
                    mid,
                    errors@,
                );
                assert(ts.take(i + 1) =~= ts.take(i as int).push(t));
                assert(binding_exprs(items@).take(i + 1) =~= done.push(u));
            }
            i += 1;
        }
        assert(ts.take(i as int) =~= ts);
        assert(binding_exprs(items@).take(i as int) =~= binding_exprs(items@));
    }

    fn visit_fields<Env>(
        &self,
        env: &Env,
        fields: &mut Vec<ExprField>,
        errors: &mut Vec<String>,
        Ghost(n): Ghost<nat>,
    ) where M: Macro<Env>
        requires
            all_end(n, self.macros(), env, field_values(old(fields)@, old(fields)@.len())),
        ensures
            same_fields(old(fields)@, final(fields)@),
            all_visited(
                n,
                self.macros(),
                env,
                field_values(old(fields)@, old(fields)@.len()),
                field_values(final(fields)@, final(fields)@.len()),
                old(errors)@,
                final(errors)@,
            ),
        decreases n, old(fields)@, 0nat,
    {
        let ghost macros = self.macros();
        let ghost start = errors@;
        let ghost all = fields@;
        let ghost ts = field_values(all, all.len());
        proof {
            none_visited(n, macros, env, start);
        }
        let mut i: usize = 0;
        while i < fields.len()
            invariant
                i <= fields@.len(),
                fields@.len() == all.len(),
                all == old(fields)@,
                ts == field_values(all, all.len()),
                macros == self.macros(),
                all_end(n, macros, env, ts),
                forall|j: int| i <= j < all.len() ==> #[trigger] fields@[j] == all[j],
                forall|j: int|
                    0 <= j < i ==> (#[trigger] fields@[j]).name == all[j].name && fields@[j].value is Some
                        == all[j].value is Some,
                all_visited(
                    n,
                    macros,
                    env,
                    field_values(all, i as nat),
                    field_values(fields@, i as nat),
                    start,
                    errors@,
                ),
            decreases fields@.len() - i,
        {
            let ghost mid = errors@;
            let ghost before = fields@;
            assert(fields@[i as int] == all[i as int]);
            assert(decreases_to!(all => all[i as int]));
            proof {
                if let Some(value) = all[i as int].value {
                    value_position(all, i as nat, all.len());
                    assert(ts[field_values(all, i as nat).len() as int] == value);
                }
            }
            match &mut fields[i].value {
                Some(value) => {
                    self.visit_expr(env, value, errors, Ghost(n));
                },
                None => {},
            }
            proof {
                same_values(before, fields@, i as nat);
                if let Some(t) = all[i as int].value {
                    one_more_visited(
                        n,
                        macros,
                        env,
                        field_values(all, i as nat),
                        field_values(before, i as nat),
                        t,
                        fields@[i as int].value->0,
                        start,
                        mid,
                        errors@,
                    );
                }
            }
            i += 1;
        }
    }
}

/// Where there are no macros nothing is expanded.
pub proof fn nothing_to_expand<Env, M: Macro<Env>>(env: &Env, expr: SpannedExpr)
    ensures
        ends_within(0, Seq::<(Seq<char>, M)>::empty(), env, expr),
    decreases expr,
{
    let macros = Seq::<(Seq<char>, M)>::empty();
    parts_decrease(expr);
    assert(macro_of(macros, expr) is None);
    assert forall|i: int| 0 <= i < parts(expr).len() implies ends_within(
        0,
        macros,
        env,
        #[trigger] parts(expr)[i],
    ) by {
        nothing_to_expand::<Env, M>(env, parts(expr)[i]);
    }
}

/// `a` begins with all of `b`.
pub open spec fn goes_on(a: Seq<String>, b: Seq<String>) -> bool {
    b.len() <= a.len() && a.take(b.len() as int) == b
}

proof fn turns_go_on(turns: Seq<Seq<String>>, n: nat)
    requires
        n < turns.len(),
        forall|i: int| 0 <= i < n ==> goes_on(turns[i + 1], #[trigger] turns[i]),
    ensures
        goes_on(turns[n as int], turns[0]),
    decreases n,
{
    if n == 0 {
        assert(turns[0].take(turns[0].len() as int) =~= turns[0]);
    } else {
        turns_go_on(turns, (n - 1) as nat);
        let (a, b, c) = (turns[n as int], turns[n - 1], turns[0]);
        assert(goes_on(turns[n - 1 + 1], turns[n - 1]));
        assert(a.take(b.len() as int).take(c.len() as int) =~= a.take(c.len() as int));
    }
}

/// What was reported stays reported.
pub proof fn reports_stay<Env, M: Macro<Env>>(
    n: nat,
    macros: Seq<(Seq<char>, M)>,
    env: &Env,
    expr: SpannedExpr,
    after: SpannedExpr,
    before: Seq<String>,
    errors: Seq<String>,
)
    requires
        visited(n, macros, env, expr, after, before, errors),
    ensures
        goes_on(errors, before),
    decreases n, expr,
{
    parts_decrease(expr);
    match macro_of(macros, expr) {
        None => {
            let turns = choose|turns: Seq<Seq<String>>| #[trigger]
                in_turn(turns, parts(expr).len(), before, errors) && forall|i: int|
                    0 <= i < parts(expr).len() ==> visited(
                        n,
                        macros,
                        env,
                        #[trigger] parts(expr)[i],
                        parts(after)[i],
                        turns[i],
                        turns[i + 1],
                    );
            assert forall|i: int| 0 <= i < parts(expr).len() implies goes_on(
                turns[i + 1],
                #[trigger] turns[i],
            ) by {
                let (t, u) = (parts(expr)[i], parts(after)[i]);
                reports_stay(n, macros, env, t, u, turns[i], turns[i + 1]);
            }
            turns_go_on(turns, parts(expr).len());
        },
        Some(_) => {
            let m = (n - 1) as nat;
            let (mid, reported, turns) = choose|
                mid: SpannedExpr,
                reported: Seq<String>,
                turns: Seq<Seq<String>>,
            |
                #[trigger] replaced(macros, env, expr, mid, reported) && #[trigger] in_turn(
                    turns,
                    parts(mid).len(),
                    before + reported,
                    errors,
                ) && same_frame(mid, after) && parts(after).len() == parts(mid).len() && forall|
                    i: int,
                |
                    0 <= i < parts(mid).len() ==> visited(
                        m,
                        macros,
                        env,
                        #[trigger] parts(mid)[i],
                        parts(after)[i],
                        turns[i],
                        turns[i + 1],
                    );
            assert forall|i: int| 0 <= i < parts(mid).len() implies goes_on(
                turns[i + 1],
                #[trigger] turns[i],
            ) by {
                let (t, u) = (parts(mid)[i], parts(after)[i]);
                reports_stay(m, macros, env, t, u, turns[i], turns[i + 1]);
            }
            turns_go_on(turns, parts(mid).len());
            let start = before + reported;
            assert(start.take(before.len() as int) =~= before);
            assert(errors.take(start.len() as int).take(before.len() as int) =~= errors.take(
                before.len() as int,
            ));
        },
    }
}

/// A macro that is inserted is the one that is found, whatever was inserted under its name before,
/// and others stay as they are.
pub proof fn inserted_macro_is_found<M>(
    macros: Seq<(Seq<char>, M)>,
    name: Seq<char>,
    mac: M,
    other: Seq<char>,
)
    ensures
        bound_to(macros.push((name, mac)), name) == Some(mac),
        other != name ==> bound_to(macros.push((name, mac)), other) == bound_to(macros, other),
{
    assert(macros.push((name, mac)).drop_last() =~= macros);
}

} // verus!
