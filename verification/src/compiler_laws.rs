//! What compiled code does: it computes the value of the expression that it was compiled from.

use vstd::prelude::*;
use crate::compiler::{
    compiled, compiled_all, compiled_all_extends, compiled_extends, extends, forget_lets, lookup,
    operator, without, CompilerEnv, Emitted, Instruction, Variable, Vars, VmExpr, VmExprKind,
    VmLiteral, VmType,
};

verus! {

/// What values are and what is done with them. The world is what calls and assignments change.
pub struct Meaning {
    pub int_value: spec_fn(i64) -> int,
    pub float_value: spec_fn(u64) -> int,
    pub global: spec_fn(usize) -> int,
    pub is_true: spec_fn(int) -> bool,
    /// An operator on numbers, which are floating point numbers or not.
    pub operate: spec_fn(bool, Seq<char>, int, int) -> int,
    /// What a function does to the world, and what it returns, if it returns something.
    pub call: spec_fn(int, int, Seq<int>) -> (int, Option<int>),
    pub construct: spec_fn(int, usize, Seq<int>) -> (int, int),
    pub field: spec_fn(int, int, usize) -> int,
    pub with_field: spec_fn(int, int, usize, int) -> int,
}

/// The machine when it is about to run the instruction `at`.
pub struct State {
    pub at: int,
    pub stack: Seq<int>,
    pub world: int,
}

pub open spec fn and_maybe(stack: Seq<int>, value: Option<int>) -> Seq<int> {
    match value {
        Some(value) => stack.push(value),
        None => stack,
    }
}

/// An operator takes its operands off the stack and puts its result there.
pub open spec fn operated(m: Meaning, s: State, float: bool, op: Seq<char>) -> Option<State> {
    let n = s.stack.len();
    if n < 2 {
        None
    } else {
        let value = (m.operate)(float, op, s.stack[n - 2], s.stack[n - 1]);
        Some(State { at: s.at + 1, stack: s.stack.take(n - 2).push(value), world: s.world })
    }
}

/// One step of the machine, in a function whose variables begin at `base`.
pub open spec fn stepped(m: Meaning, base: nat, code: Seq<Instruction>, s: State) -> Option<State> {
    let n = s.stack.len() as int;
    let next = s.at + 1;
    if s.at < 0 || s.at >= code.len() {
        None
    } else {
        match code[s.at] {
            Instruction::PushInt(i) => Some(
                State { at: next, stack: s.stack.push((m.int_value)(i)), world: s.world },
            ),
            Instruction::PushFloat(bits) => Some(
                State { at: next, stack: s.stack.push((m.float_value)(bits)), world: s.world },
            ),
            Instruction::Push(i) => if base + i < n {
                Some(State { at: next, stack: s.stack.push(s.stack[base + i]), world: s.world })
            } else {
                None
            },
            Instruction::PushGlobal(i) => Some(
                State { at: next, stack: s.stack.push((m.global)(i)), world: s.world },
            ),
            Instruction::Store(i) => if base + i < n - 1 {
                Some(
                    State {
                        at: next,
                        stack: s.stack.drop_last().update(base + i, s.stack.last()),
                        world: s.world,
                    },
                )
            } else {
                None
            },
            Instruction::CallGlobal(args) => if args < n {
                let (world, value) = (m.call)(
                    s.world,
                    s.stack[n - args - 1],
                    s.stack.skip(n - args),
                );
                Some(State { at: next, stack: and_maybe(s.stack.take(n - args - 1), value), world })
            } else {
                None
            },
            Instruction::Construct(tag, args) => if args <= n {
                let (world, value) = (m.construct)(s.world, tag, s.stack.skip(n - args));
                Some(State { at: next, stack: s.stack.take(n - args).push(value), world })
            } else {
                None
            },
            Instruction::GetField(i) => if n > 0 {
                let value = (m.field)(s.world, s.stack.last(), i);
                Some(State { at: next, stack: s.stack.drop_last().push(value), world: s.world })
            } else {
                None
            },
            Instruction::SetField(i) => if n > 1 {
                let world = (m.with_field)(s.world, s.stack[n - 1], i, s.stack[n - 2]);
                Some(State { at: next, stack: s.stack.take(n - 2), world })
            } else {
                None
            },
            Instruction::Jump(to) => Some(State { at: to as int, ..s }),
            Instruction::CJump(to) => if n > 0 {
                let at = if (m.is_true)(s.stack.last()) {
                    to as int
                } else {
                    next
                };
                Some(State { at, stack: s.stack.drop_last(), world: s.world })
            } else {
                None
            },
            Instruction::Pop(count) => if count <= n {
                Some(State { at: next, stack: s.stack.take(n - count), world: s.world })
            } else {
                None
            },
            Instruction::Slide(count) => if count < n {
                Some(
                    State {
                        at: next,
                        stack: s.stack.take(n - count - 1).push(s.stack.last()),
                        world: s.world,
                    },
                )
            } else {
                None
            },
            Instruction::AddInt => operated(m, s, false, "+"@),
            Instruction::SubtractInt => operated(m, s, false, "-"@),
            Instruction::MultiplyInt => operated(m, s, false, "*"@),
            Instruction::IntLT => operated(m, s, false, "<"@),
            Instruction::AddFloat => operated(m, s, true, "+"@),
            Instruction::SubtractFloat => operated(m, s, true, "-"@),
            Instruction::MultiplyFloat => operated(m, s, true, "*"@),
            Instruction::FloatLT => operated(m, s, true, "<"@),
            Instruction::Split => None,
            Instruction::TestTag(_) => None,
        }
    }
}

/// `n` steps of the machine.
pub open spec fn ran(m: Meaning, base: nat, code: Seq<Instruction>, n: nat, s: State) -> Option<State>
    decreases n,
{
    if n == 0 {
        Some(s)
    } else {
        match ran(m, base, code, (n - 1) as nat, s) {
            Some(s) => stepped(m, base, code, s),
            None => None,
        }
    }
}

/// The variables and their values.
pub type Store = Seq<(Seq<char>, int)>;

/// Where the variable `name` stands.
pub open spec fn place(store: Store, name: Seq<char>) -> Option<int>
    decreases store.len(),
{
    if store.len() == 0 {
        None
    } else if store.last().0 == name {
        Some(store.len() - 1)
    } else {
        place(store.drop_last(), name)
    }
}

/// The variables, the world and the value, if there is one, behind an expression.
pub type Outcome = Option<(Store, int, Option<int>)>;

/// The position of the field of a struct.
pub open spec fn field_index<E: CompilerEnv>(env: E, owner: VmExpr, field: Seq<char>) -> Option<
    usize,
> {
    match *owner.typ {
        VmType::Data(id) => env.field(id@, field),
        _ => None,
    }
}

/// The value of `expr`. Expressions of the type unit have none. It is not said what a match means,
/// nor what an expression does that does not end within `fuel` rounds of its loops.
pub open spec fn evaluated<E: CompilerEnv>(
    m: Meaning,
    env: E,
    fuel: nat,
    store: Store,
    world: int,
    expr: VmExpr,
) -> Outcome
    decreases fuel, expr, 1nat,
{
    match meant(m, env, fuel, store, world, expr) {
        Some((after, world, value)) => if (value is None) == (*expr.typ is Unit) {
            Some((after, world, value))
        } else {
            None
        },
        None => None,
    }
}

pub open spec fn meant<E: CompilerEnv>(
    m: Meaning,
    env: E,
    fuel: nat,
    store: Store,
    world: int,
    expr: VmExpr,
) -> Outcome
    decreases fuel, expr, 0nat,
{
    match expr.value {
        VmExprKind::Literal(VmLiteral::Integer(i)) => Some((store, world, Some((m.int_value)(i)))),
        VmExprKind::Literal(VmLiteral::Float(bits)) => Some(
            (store, world, Some((m.float_value)(bits))),
        ),
        // Truth values are the numbers 1 and 0
        VmExprKind::Literal(VmLiteral::Bool(true)) => Some((store, world, Some((m.int_value)(1)))),
        VmExprKind::Literal(VmLiteral::Bool(false)) => Some((store, world, Some((m.int_value)(0)))),
        VmExprKind::Literal(VmLiteral::String(_)) => None,
        VmExprKind::Identifier(id) => match place(store, id.name@) {
            Some(i) => Some((store, world, Some(store[i].1))),
            None => match env.var(id.name@) {
                Some(Variable::Global(i)) => Some((store, world, Some((m.global)(i)))),
                _ => None,
            },
        },
        VmExprKind::IfElse(pred, if_true, if_false) => match evaluated(
            m,
            env,
            fuel,
            store,
            world,
            *pred,
        ) {
            Some((store, world, Some(test))) => if (m.is_true)(test) {
                evaluated(m, env, fuel, store, world, *if_true)
            } else {
                evaluated(m, env, fuel, store, world, *if_false)
            },
            _ => None,
        },
        VmExprKind::Block(exprs) => match evaluated_all(
            m,
            env,
            fuel,
            store,
            world,
            exprs@,
            exprs@.len(),
        ) {
            // What is declared in the block is forgotten
            Some((after, world, value)) => Some((after.take(store.len() as int), world, value)),
            None => None,
        },
        VmExprKind::BinOp(lhs, op, rhs) => match evaluated(m, env, fuel, store, world, *lhs) {
            Some((store, world, Some(l))) => match evaluated(m, env, fuel, store, world, *rhs) {
                Some((store, world, Some(r))) => Some(
                    (store, world, Some((m.operate)(*lhs.typ is Float, op@, l, r))),
                ),
                _ => None,
            },
            _ => None,
        },
        // There is no room for more variables than the machine can count
        VmExprKind::Let(id, value) => match evaluated(m, env, fuel, store, world, *value) {
            Some((after, world, value)) => if after.len() < usize::MAX {
                Some((after.push((id.name@, value_or_zero(m, value))), world, None))
            } else {
                None
            },
            None => None,
        },
        VmExprKind::Call(func, args) => match constructor_of(env, store, *func) {
            Some((tag, count)) => match evaluated_args(
                m,
                env,
                fuel,
                store,
                world,
                args@,
                args@.len(),
            ) {
                Some((store, world, values)) => if count == values.len() {
                    let (world, value) = (m.construct)(world, tag, values);
                    Some((store, world, Some(value)))
                } else {
                    None
                },
                None => None,
            },
            None => match evaluated(m, env, fuel, store, world, *func) {
                Some((store, world, Some(f))) => match evaluated_args(
                    m,
                    env,
                    fuel,
                    store,
                    world,
                    args@,
                    args@.len(),
                ) {
                    Some((store, world, values)) => {
                        let (world, value) = (m.call)(world, f, values);
                        Some((store, world, value))
                    },
                    None => None,
                },
                _ => None,
            },
        },
        VmExprKind::While(pred, body) => match evaluated(m, env, fuel, store, world, *pred) {
            Some((store, world, Some(test))) => if (m.is_true)(test) {
                match evaluated(m, env, fuel, store, world, *body) {
                    Some((store, world, None)) => if fuel == 0 {
                        None
                    } else {
                        evaluated(m, env, (fuel - 1) as nat, store, world, expr)
                    },
                    _ => None,
                }
            } else {
                Some((store, world, None))
            },
            _ => None,
        },
        VmExprKind::Assign(lhs, rhs) => match evaluated(m, env, fuel, store, world, *rhs) {
            Some((store, world, Some(v))) => match lhs.value {
                VmExprKind::Identifier(id) => match place(store, id.name@) {
                    Some(i) => Some((store.update(i, (store[i].0, v)), world, None)),
                    None => None,
                },
                VmExprKind::FieldAccess(owner, field) => match (
                    evaluated(m, env, fuel, store, world, *owner),
                    field_index(env, *owner, field.name@),
                ) {
                    (Some((store, world, Some(o))), Some(i)) => Some(
                        (store, (m.with_field)(world, o, i, v), None),
                    ),
                    _ => None,
                },
                _ => None,
            },
            _ => None,
        },
        VmExprKind::FieldAccess(owner, field) => match (
            evaluated(m, env, fuel, store, world, *owner),
            field_index(env, *owner, field.name@),
        ) {
            (Some((store, world, Some(o))), Some(i)) => Some(
                (store, world, Some((m.field)(world, o, i))),
            ),
            _ => None,
        },
        VmExprKind::Match(_, _) => None,
    }
}

/// A variable for something without a value is zero.
pub open spec fn value_or_zero(m: Meaning, value: Option<int>) -> int {
    match value {
        Some(value) => value,
        None => (m.int_value)(0),
    }
}

/// The tag and the number of arguments of the constructor that `func` names.
pub open spec fn constructor_of<E: CompilerEnv>(env: E, store: Store, func: VmExpr) -> Option<
    (usize, usize),
> {
    match func.value {
        VmExprKind::Identifier(id) => if place(store, id.name@) is Some {
            None
        } else {
            match env.var(id.name@) {
                Some(Variable::Constructor(tag, count)) => Some((tag, count)),
                _ => None,
            }
        },
        _ => None,
    }
}

/// The first `n` of `exprs` one after the other. The value is that of the last.
pub open spec fn evaluated_all<E: CompilerEnv>(
    m: Meaning,
    env: E,
    fuel: nat,
    store: Store,
    world: int,
    exprs: Seq<VmExpr>,
    n: nat,
) -> Outcome
    decreases fuel, exprs, n,
{
    if n == 0 || n > exprs.len() {
        Some((store, world, None))
    } else {
        match evaluated_all(m, env, fuel, store, world, exprs, (n - 1) as nat) {
            Some((store, world, _)) => evaluated(m, env, fuel, store, world, exprs[n - 1]),
            None => None,
        }
    }
}

/// The values of the first `n` of `args`.
pub open spec fn evaluated_args<E: CompilerEnv>(
    m: Meaning,
    env: E,
    fuel: nat,
    store: Store,
    world: int,
    args: Seq<VmExpr>,
    n: nat,
) -> Option<(Store, int, Seq<int>)>
    decreases fuel, args, n,
{
    if n == 0 || n > args.len() {
        Some((store, world, Seq::empty()))
    } else {
        match evaluated_args(m, env, fuel, store, world, args, (n - 1) as nat) {
            Some((store, world, values)) => match evaluated(
                m,
                env,
                fuel,
                store,
                world,
                args[n - 1],
            ) {
                Some((store, world, Some(value))) => Some((store, world, values.push(value))),
                _ => None,
            },
            None => None,
        }
    }
}

/// Variables are declared as statements of blocks only, and not while other values are on the stack.
pub open spec fn well_placed(expr: VmExpr, top: bool) -> bool
    decreases expr,
{
    match expr.value {
        VmExprKind::Literal(_) => true,
        VmExprKind::Identifier(_) => true,
        VmExprKind::IfElse(pred, if_true, if_false) => well_placed(*pred, top) && well_placed(
            *if_true,
            top,
        ) && well_placed(*if_false, top),
        VmExprKind::Block(exprs) => forall|i: int|
            0 <= i < exprs@.len() ==> match (#[trigger] exprs@[i]).value {
                VmExprKind::Let(_, value) => top && *exprs@[i].typ is Unit && well_placed(
                    *value,
                    top,
                ),
                _ => well_placed(exprs@[i], top),
            },
        VmExprKind::BinOp(lhs, _, rhs) => well_placed(*lhs, top) && well_placed(*rhs, false),
        VmExprKind::Let(_, _) => false,
        VmExprKind::Call(func, args) => well_placed(*func, top) && forall|i: int|
            0 <= i < args@.len() ==> well_placed(#[trigger] args@[i], false),
        VmExprKind::While(pred, body) => well_placed(*pred, top) && well_placed(*body, top),
        VmExprKind::Assign(lhs, rhs) => well_placed(*rhs, top) && match lhs.value {
            VmExprKind::FieldAccess(owner, _) => well_placed(*owner, false),
            _ => true,
        },
        VmExprKind::FieldAccess(owner, _) => well_placed(*owner, top),
        VmExprKind::Match(_, _) => false,
    }
}

/// `expr` as a statement of a block.
pub open spec fn statement_placed(expr: VmExpr, top: bool) -> bool {
    match expr.value {
        VmExprKind::Let(_, value) => top && *expr.typ is Unit && well_placed(*value, top),
        _ => well_placed(expr, top),
    }
}

/// Each variable has a name of its own and stands where it was declared.
pub open spec fn in_place(vars: Vars) -> bool {
    &&& forall|i: int|
        0 <= i < vars.len() ==> (#[trigger] vars[i]).1 == Variable::Stack(i as usize)
    &&& forall|i: int, j: int|
        0 <= i < j < vars.len() ==> (#[trigger] vars[i]).0 != (#[trigger] vars[j]).0
}

proof fn lookup_is_none(vars: Vars, name: Seq<char>)
    ensures
        lookup(vars, name) is None <==> forall|i: int|
            0 <= i < vars.len() ==> (#[trigger] vars[i]).0 != name,
    decreases vars.len(),
{
    if vars.len() > 0 {
        lookup_is_none(vars.drop_last(), name);
        assert(vars.last() == vars[vars.len() - 1]);
        assert forall|i: int| 0 <= i < vars.len() - 1 implies vars.drop_last()[i] == vars[i] by {}
    }
}

proof fn without_behind(a: Vars, b: Vars, name: Seq<char>)
    requires
        forall|i: int| 0 <= i < a.len() ==> (#[trigger] a[i]).0 != name,
    ensures
        without(a + b, name) == a + without(b, name),
    decreases a.len() + b.len(),
{
    if b.len() > 0 {
        assert((a + b).drop_last() =~= a + b.drop_last());
        assert((a + b).last() == b.last());
        without_behind(a, b.drop_last(), name);
        assert(without(a + b, name) =~= a + without(b, name));
    } else if a.len() > 0 {
        assert((a + b) =~= a);
        assert(a.last() == a[a.len() - 1]);
        assert(a.drop_last() + b =~= a.drop_last());
        without_behind(a.drop_last(), b, name);
        assert(without(a, name) =~= a);
        assert(without(b, name) =~= b);
    } else {
        assert(a + b =~= b);
        assert(a + without(b, name) =~= without(b, name));
    }
}

proof fn without_keeps(vars: Vars, name: Seq<char>)
    ensures
        forall|i: int|
            #![trigger without(vars, name)[i]]
            0 <= i < without(vars, name).len() ==> without(vars, name)[i].0 != name && exists|
                j: int,
            |
                0 <= j < vars.len() && vars[j] == without(vars, name)[i],
    decreases vars.len(),
{
    if vars.len() > 0 {
        without_keeps(vars.drop_last(), name);
        let rest = without(vars.drop_last(), name);
        let all = without(vars, name);
        assert forall|i: int|
            #![trigger all[i]]
            0 <= i < all.len() implies all[i].0 != name && exists|j: int|
            0 <= j < vars.len() && vars[j] == all[i] by {
            if i < rest.len() {
                assert(all[i] == rest[i]);
                let j = choose|j: int| 0 <= j < vars.len() - 1 && vars.drop_last()[j] == rest[i];
                assert(vars[j] == all[i]);
            } else {
                assert(vars[vars.len() - 1] == all[i]);
            }
        }
    }
}

/// `name` is declared by one of the first `n` of `exprs`.
spec fn is_declared(exprs: Seq<VmExpr>, n: nat, name: Seq<char>) -> bool {
    exists|i: int|
        0 <= i < n && i < exprs.len() && ((#[trigger] exprs[i]).value matches VmExprKind::Let(id, _)
            && id.name@ == name)
}

/// What is left of the variables `more` once those of the first `n` of `exprs` are forgotten.
proof fn lets_are_forgotten(
    s: Emitted,
    old: Vars,
    more: Vars,
    exprs: Seq<VmExpr>,
    n: nat,
) -> (left: Vars)
    requires
        n <= exprs.len(),
        s.vars == old + more,
        in_place(s.vars),
        forall|i: int| 0 <= i < more.len() ==> is_declared(exprs, exprs.len(), (#[trigger] more[i]).0),
        forall|i: int| 0 <= i < old.len() ==> !is_declared(exprs, exprs.len(), (#[trigger] old[i]).0),
    ensures
        forget_lets(s, exprs, n).vars == old + left,
        forget_lets(s, exprs, n).code == s.code,
        forall|i: int|
            0 <= i < left.len() ==> is_declared(exprs, exprs.len(), (#[trigger] left[i]).0)
                && !is_declared(exprs, n, left[i].0),
    decreases n,
{
    if n == 0 {
        assert forall|i: int| 0 <= i < more.len() implies !is_declared(
            exprs,
            n,
            (#[trigger] more[i]).0,
        ) by {}
        more
    } else {
        let before = lets_are_forgotten(s, old, more, exprs, (n - 1) as nat);
        match exprs[n - 1].value {
            VmExprKind::Let(id, _) => {
                let name = id.name@;
                assert forall|i: int| 0 <= i < old.len() implies (#[trigger] old[i]).0 != name by {
                    if old[i].0 == name {
                        assert(is_declared(exprs, exprs.len(), old[i].0));
                    }
                }
                without_behind(old, before, name);
                without_keeps(before, name);
                let left = without(before, name);
                assert forall|i: int| 0 <= i < left.len() implies is_declared(
                    exprs,
                    exprs.len(),
                    (#[trigger] left[i]).0,
                ) && !is_declared(exprs, n, left[i].0) by {
                    let j = choose|j: int| 0 <= j < before.len() && before[j] == left[i];
                    assert(is_declared(exprs, exprs.len(), before[j].0));
                    assert(!is_declared(exprs, (n - 1) as nat, before[j].0));
                }
                left
            },
            _ => {
                assert forall|i: int| 0 <= i < before.len() implies is_declared(
                    exprs,
                    exprs.len(),
                    (#[trigger] before[i]).0,
                ) && !is_declared(exprs, n, before[i].0) by {
                    assert(!is_declared(exprs, (n - 1) as nat, before[i].0));
                }
                before
            },
        }
    }
}

proof fn statement_placed_at(exprs: Seq<VmExpr>, top: bool, i: int)
    requires
        0 <= i < exprs.len(),
        forall|i: int|
            0 <= i < exprs.len() ==> match (#[trigger] exprs[i]).value {
                VmExprKind::Let(_, value) => top && *exprs[i].typ is Unit && well_placed(
                    *value,
                    top,
                ),
                _ => well_placed(exprs[i], top),
            },
    ensures
        statement_placed(exprs[i], top),
{
}

/// A statement declares at most the variable that it is for.
proof fn statement_declares<E: CompilerEnv>(env: E, s: Emitted, expr: VmExpr, top: bool)
    requires
        in_place(s.vars),
        statement_placed(expr, top),
    ensures
        compiled(env, s, expr) matches Some(t) ==> in_place(t.vars) && match expr.value {
            VmExprKind::Let(id, _) => t.vars == s.vars.push(
                (id.name@, Variable::Stack(s.vars.len() as usize)),
            ) && lookup(s.vars, id.name@) is None,
            _ => t.vars == s.vars,
        },
    decreases expr, 1nat,
{
    match expr.value {
        VmExprKind::Let(id, value) => {
            vars_are_kept(env, s, *value, top);
            if let Some(u) = compiled(env, s, *value) {
                lookup_is_none(u.vars, id.name@);
            }
        },
        _ => vars_are_kept(env, s, expr, top),
    }
}

/// Statements add the variables that they declare, and those only.
proof fn statements_declare<E: CompilerEnv>(
    env: E,
    s: Emitted,
    exprs: Seq<VmExpr>,
    n: nat,
    top: bool,
) -> (more: Vars)
    requires
        in_place(s.vars),
        n <= exprs.len(),
        forall|i: int| 0 <= i < exprs.len() ==> statement_placed(#[trigger] exprs[i], top),
    ensures
        compiled_all(env, s, exprs, n, true) matches Some(t) ==> {
            &&& t.vars == s.vars + more
            &&& in_place(t.vars)
            &&& forall|i: int| 0 <= i < more.len() ==> is_declared(exprs, n, (#[trigger] more[i]).0)
            &&& forall|i: int| 0 <= i < s.vars.len() ==> !is_declared(exprs, n, (#[trigger] s.vars[i]).0)
        },
        !top ==> more.len() == 0,
    decreases exprs, n,
{
    if n == 0 {
        assert(s.vars + Seq::empty() =~= s.vars);
        Seq::empty()
    } else {
        let before = statements_declare(env, s, exprs, (n - 1) as nat, top);
        if let Some(u) = compiled_all(env, s, exprs, (n - 1) as nat, true) {
            statement_declares(env, u, exprs[n - 1], top);
            if let Some(t) = compiled(env, u, exprs[n - 1]) {
                match exprs[n - 1].value {
                    VmExprKind::Let(id, _) => {
                        let own = (id.name@, Variable::Stack(u.vars.len() as usize));
                        let more = before.push(own);
                        lookup_is_none(u.vars, id.name@);
                        assert(t.vars =~= s.vars + more);
                        assert forall|i: int| 0 <= i < more.len() implies is_declared(
                            exprs,
                            n,
                            (#[trigger] more[i]).0,
                        ) by {
                            if i < before.len() {
                                assert(is_declared(exprs, (n - 1) as nat, before[i].0));
                            } else {
                                assert(exprs[n - 1].value matches VmExprKind::Let(id, _)
                                    && id.name@ == more[i].0);
                            }
                        }
                        assert forall|i: int| 0 <= i < s.vars.len() implies !is_declared(
                            exprs,
                            n,
                            (#[trigger] s.vars[i]).0,
                        ) by {
                            assert(u.vars[i] == s.vars[i]);
                            assert(!is_declared(exprs, (n - 1) as nat, s.vars[i].0));
                        }
                        more
                    },
                    _ => {
                        assert forall|i: int| 0 <= i < before.len() implies is_declared(
                            exprs,
                            n,
                            (#[trigger] before[i]).0,
                        ) by {
                            assert(is_declared(exprs, (n - 1) as nat, before[i].0));
                        }
                        assert forall|i: int| 0 <= i < s.vars.len() implies !is_declared(
                            exprs,
                            n,
                            (#[trigger] s.vars[i]).0,
                        ) by {
                            assert(!is_declared(exprs, (n - 1) as nat, s.vars[i].0));
                        }
                        before
                    },
                }
            } else {
                Seq::empty()
            }
        } else {
            Seq::empty()
        }
    }
}

/// The statements of a block, and that all variables which they add are gone behind it.
proof fn block_forgets<E: CompilerEnv>(env: E, s: Emitted, exprs: Seq<VmExpr>, top: bool)
    requires
        in_place(s.vars),
        exprs.len() > 0,
        forall|i: int| 0 <= i < exprs.len() ==> statement_placed(#[trigger] exprs[i], top),
    ensures
        compiled_all(env, s, exprs, (exprs.len() - 1) as nat, true) matches Some(u) ==> (compiled(
            env,
            u,
            exprs[exprs.len() - 1],
        ) matches Some(t) ==> forget_lets(t, exprs, exprs.len()).vars == s.vars),
    decreases exprs, exprs.len(),
{
    let n = exprs.len();
    let before = statements_declare(env, s, exprs, (n - 1) as nat, top);
    if let Some(u) = compiled_all(env, s, exprs, (n - 1) as nat, true) {
        statement_declares(env, u, exprs[n - 1], top);
        if let Some(t) = compiled(env, u, exprs[n - 1]) {
            let more = match exprs[n - 1].value {
                VmExprKind::Let(id, _) => before.push(
                    (id.name@, Variable::Stack(u.vars.len() as usize)),
                ),
                _ => before,
            };
            assert(t.vars =~= s.vars + more);
            if let VmExprKind::Let(id, _) = exprs[n - 1].value {
                lookup_is_none(u.vars, id.name@);
            }
            assert forall|i: int| 0 <= i < more.len() implies is_declared(
                exprs,
                n,
                (#[trigger] more[i]).0,
            ) by {
                if i < before.len() {
                    assert(is_declared(exprs, (n - 1) as nat, before[i].0));
                } else {
                    assert(exprs[n - 1].value matches VmExprKind::Let(id, _) && id.name@
                        == more[i].0);
                }
            }
            assert forall|i: int| 0 <= i < s.vars.len() implies !is_declared(
                exprs,
                n,
                (#[trigger] s.vars[i]).0,
            ) by {
                assert(u.vars[i] == s.vars[i]);
                assert(!is_declared(exprs, (n - 1) as nat, s.vars[i].0));
            }
            let left = lets_are_forgotten(t, s.vars, more, exprs, n);
            if left.len() > 0 {
                assert(is_declared(exprs, n, left[0].0));
                assert(!is_declared(exprs, n, left[0].0));
            }
            assert(s.vars + left =~= s.vars);
        }
    }
}

proof fn args_keep_vars<E: CompilerEnv>(env: E, s: Emitted, args: Seq<VmExpr>, n: nat)
    requires
        in_place(s.vars),
        n <= args.len(),
        forall|i: int| 0 <= i < args.len() ==> well_placed(#[trigger] args[i], false),
    ensures
        compiled_all(env, s, args, n, false) matches Some(t) ==> t.vars == s.vars,
    decreases args, n,
{
    if n > 0 {
        args_keep_vars(env, s, args, (n - 1) as nat);
        if let Some(u) = compiled_all(env, s, args, (n - 1) as nat, false) {
            vars_are_kept(env, u, args[n - 1], false);
        }
    }
}

/// Behind an expression there are the variables that there were before it.
#[verifier::rlimit(30)]
proof fn vars_are_kept<E: CompilerEnv>(env: E, s: Emitted, expr: VmExpr, top: bool)
    requires
        in_place(s.vars),
        well_placed(expr, top),
    ensures
        compiled(env, s, expr) matches Some(t) ==> t.vars == s.vars,
    decreases expr, 0nat,
{
    match expr.value {
        VmExprKind::IfElse(pred, if_true, if_false) => {
            vars_are_kept(env, s, *pred, top);
            if let Some(s1) = compiled(env, s, *pred) {
                vars_are_kept(env, s1.push(Instruction::CJump(0)), *if_false, top);
                if let Some(s2) = compiled(env, s1.push(Instruction::CJump(0)), *if_false) {
                    let s3 = s2.push(Instruction::Jump(0)).patch(
                        s1.code.len() as int,
                        Instruction::CJump((s2.code.len() + 1) as usize),
                    );
                    vars_are_kept(env, s3, *if_true, top);
                }
            }
        },
        VmExprKind::Block(exprs) => {
            assert forall|i: int| 0 <= i < exprs@.len() implies statement_placed(
                #[trigger] exprs@[i],
                top,
            ) by {
                statement_placed_at(exprs@, top, i);
            }
            if exprs@.len() > 0 {
                block_forgets(env, s, exprs@, top);
            }
        },
        VmExprKind::BinOp(lhs, _, rhs) => {
            vars_are_kept(env, s, *lhs, top);
            if let Some(u) = compiled(env, s, *lhs) {
                vars_are_kept(env, u, *rhs, false);
            }
        },
        VmExprKind::Call(func, args) => {
            args_keep_vars(env, s, args@, args@.len());
            vars_are_kept(env, s, *func, top);
            if let Some(u) = compiled(env, s, *func) {
                args_keep_vars(env, u, args@, args@.len());
            }
        },
        VmExprKind::While(pred, body) => {
            let start = s.push(Instruction::Jump(0));
            vars_are_kept(env, start, *body, top);
            if let Some(u) = compiled(env, start, *body) {
                let patched = u.patch(
                    s.code.len() as int,
                    Instruction::Jump(u.code.len() as usize),
                );
                vars_are_kept(env, patched, *pred, top);
            }
        },
        VmExprKind::Assign(lhs, rhs) => {
            vars_are_kept(env, s, *rhs, top);
            if let Some(u) = compiled(env, s, *rhs) {
                if let VmExprKind::FieldAccess(owner, _) = lhs.value {
                    vars_are_kept(env, u, *owner, false);
                }
            }
        },
        VmExprKind::FieldAccess(owner, _) => {
            vars_are_kept(env, s, *owner, top);
        },
        _ => {},
    }
}

pub open spec fn values(store: Store) -> Seq<int> {
    store.map_values(|var: (Seq<char>, int)| var.1)
}

/// The variables are those of `store`.
pub open spec fn agrees(vars: Vars, store: Store) -> bool {
    &&& vars.len() == store.len() <= usize::MAX
    &&& in_place(vars)
    &&& forall|i: int| 0 <= i < vars.len() ==> (#[trigger] vars[i]).0 == store[i].0
}

/// The stack: what is below the variables, the variables, and what is above them.
pub open spec fn stack_of(below: Seq<int>, store: Store, temps: Seq<int>) -> Seq<int> {
    below + values(store) + temps
}

/// `code` holds what was added to the code of `s` to make that of `t`.
pub open spec fn emits(code: Seq<Instruction>, s: Emitted, t: Emitted) -> bool {
    &&& s.code.len() <= t.code.len() <= code.len() <= usize::MAX
    &&& forall|i: int| s.code.len() <= i < t.code.len() ==> #[trigger] code[i] == t.code[i]
}

spec fn reached(
    m: Meaning,
    base: nat,
    code: Seq<Instruction>,
    n: nat,
    from: State,
    to: State,
) -> bool {
    ran(m, base, code, n, from) == Some(to)
}

proof fn goes_on(
    m: Meaning,
    base: nat,
    code: Seq<Instruction>,
    a: State,
    k: nat,
    b: State,
    n: nat,
    c: State,
)
    requires
        reached(m, base, code, k, a, b),
        reached(m, base, code, n, b, c),
    ensures
        reached(m, base, code, k + n, a, c),
    decreases n,
{
    if n > 0 {
        let mid = ran(m, base, code, (n - 1) as nat, b)->0;
        goes_on(m, base, code, a, k, b, (n - 1) as nat, mid);
        assert((k + n - 1) as nat == k + (n - 1) as nat);
    }
}

proof fn one_step(m: Meaning, base: nat, code: Seq<Instruction>, a: State, b: State)
    requires
        stepped(m, base, code, a) == Some(b),
    ensures
        reached(m, base, code, 1, a, b),
{
    assert(ran(m, base, code, 0, a) == Some(a));
}

proof fn found_in_place(vars: Vars, store: Store, name: Seq<char>)
    requires
        vars.len() == store.len(),
        forall|i: int|
            0 <= i < vars.len() ==> (#[trigger] vars[i]).0 == store[i].0 && vars[i].1
                == Variable::Stack(i as usize),
    ensures
        match place(store, name) {
            Some(i) => 0 <= i < store.len() && lookup(vars, name) == Some(
                Variable::Stack(i as usize),
            ) && store[i].0 == name,
            None => lookup(vars, name) is None,
        },
    decreases vars.len(),
{
    if vars.len() > 0 {
        let (v, t) = (vars.drop_last(), store.drop_last());
        assert(vars.last() == vars[vars.len() - 1]);
        assert forall|i: int| 0 <= i < v.len() implies (#[trigger] v[i]).0 == t[i].0 && v[i].1
            == Variable::Stack(i as usize) by {
            assert(v[i] == vars[i]);
        }
        found_in_place(v, t, name);
    }
}

/// The state before the code that follows that of `s`.
spec fn before(s: Emitted, below: Seq<int>, store: Store, temps: Seq<int>, world: int) -> State {
    State { at: s.code.len() as int, stack: stack_of(below, store, temps), world }
}

/// The state behind the code of `t`, with the value on top.
spec fn behind(
    t: Emitted,
    below: Seq<int>,
    store: Store,
    temps: Seq<int>,
    value: Option<int>,
    world: int,
) -> State {
    State {
        at: t.code.len() as int,
        stack: and_maybe(stack_of(below, store, temps), value),
        world,
    }
}

/// The value of an expression is one more on the stack.
proof fn on_top(below: Seq<int>, store: Store, temps: Seq<int>, value: int)
    ensures
        stack_of(below, store, temps).push(value) == stack_of(below, store, temps.push(value)),
        stack_of(below, store, temps.push(value)).drop_last() == stack_of(below, store, temps),
        stack_of(below, store, temps.push(value)).last() == value,
        stack_of(below, store, temps).len() == below.len() + store.len() + temps.len(),
{
    assert(stack_of(below, store, temps).push(value) =~= stack_of(below, store, temps.push(value)));
    assert(stack_of(below, store, temps.push(value)).drop_last() =~= stack_of(below, store, temps));
}

proof fn simple_runs<E: CompilerEnv>(
    m: Meaning,
    env: E,
    below: Seq<int>,
    fuel: nat,
    code: Seq<Instruction>,
    s: Emitted,
    store: Store,
    temps: Seq<int>,
    world: int,
    expr: VmExpr,
) -> (n: nat)
    requires
        expr.value is Literal || expr.value is Identifier,
        compiled(env, s, expr) is Some,
        well_placed(expr, temps.len() == 0),
        agrees(s.vars, store),
        emits(code, s, compiled(env, s, expr)->0),
        meant(m, env, fuel, store, world, expr) is Some,
    ensures
        meant(m, env, fuel, store, world, expr) matches Some((after, w, value)) && agrees(
            s.vars,
            after,
        ) && reached(
            m,
            below.len(),
            code,
            n,
            before(s, below, store, temps, world),
            behind(compiled(env, s, expr)->0, below, after, temps, value, w),
        ),
{
    let t = compiled(env, s, expr)->0;
    let (after, w, value) = meant(m, env, fuel, store, world, expr)->0;
    let from = before(s, below, store, temps, world);
    let to = behind(t, below, after, temps, value, w);
    assert(code[s.code.len() as int] == t.code[s.code.len() as int]);
    if let VmExprKind::Identifier(id) = expr.value {
        found_in_place(s.vars, store, id.name@);
        if let Some(i) = place(store, id.name@) {
            assert(stack_of(below, store, temps)[below.len() + i] == values(store)[i]);
        }
    }
    one_step(m, below.len(), code, from, to);
    1
}

#[verifier::rlimit(40)]
#[verifier::spinoff_prover]
proof fn if_runs<E: CompilerEnv>(
    m: Meaning,
    env: E,
    below: Seq<int>,
    fuel: nat,
    code: Seq<Instruction>,
    s: Emitted,
    store: Store,
    temps: Seq<int>,
    world: int,
    expr: VmExpr,
) -> (n: nat)
    requires
        expr.value is IfElse,
        compiled(env, s, expr) is Some,
        well_placed(expr, temps.len() == 0),
        agrees(s.vars, store),
        emits(code, s, compiled(env, s, expr)->0),
        meant(m, env, fuel, store, world, expr) is Some,
    ensures
        meant(m, env, fuel, store, world, expr) matches Some((after, w, value)) && agrees(
            s.vars,
            after,
        ) && reached(
            m,
            below.len(),
            code,
            n,
            before(s, below, store, temps, world),
            behind(compiled(env, s, expr)->0, below, after, temps, value, w),
        ),
    decreases fuel, expr, 0nat,
{
    let t = compiled(env, s, expr)->0;
    let from = before(s, below, store, temps, world);
    let (last, last_w, value) = meant(m, env, fuel, store, world, expr)->0;
    let to = behind(t, below, last, temps, value, last_w);
    let base = below.len();
    if let VmExprKind::IfElse(pred, if_true, if_false) = expr.value {
        let top = temps.len() == 0;
        let s1 = compiled(env, s, *pred)->0;
        let f0 = s1.push(Instruction::CJump(0));
        let s2 = compiled(env, f0, *if_false)->0;
        let s3 = s2.push(Instruction::Jump(0)).patch(
            s1.code.len() as int,
            Instruction::CJump((s2.code.len() + 1) as usize),
        );
        let s4 = compiled(env, s3, *if_true)->0;
        compiled_extends(env, s, *pred);
        compiled_extends(env, f0, *if_false);
        compiled_extends(env, s3, *if_true);
        vars_are_kept(env, s, *pred, top);
        vars_are_kept(env, f0, *if_false, top);
        assert(t.code.len() == s4.code.len());
        assert forall|i: int| s.code.len() <= i < s1.code.len() implies #[trigger] code[i]
            == s1.code[i] by {
            assert(f0.code[i] == s1.code[i]);
            assert(s2.code[i] == f0.code[i]);
            assert(s3.code[i] == s2.code[i]);
            assert(s4.code[i] == s3.code[i]);
            assert(t.code[i] == s4.code[i]);
        }
        assert forall|i: int| f0.code.len() <= i < s2.code.len() implies #[trigger] code[i]
            == s2.code[i] by {
            assert(s3.code[i] == s2.code[i]);
            assert(s4.code[i] == s3.code[i]);
            assert(t.code[i] == s4.code[i]);
        }
        assert forall|i: int| s3.code.len() <= i < s4.code.len() implies #[trigger] code[i]
            == s4.code[i] by {
            assert(t.code[i] == s4.code[i]);
        }
        let jump = s1.code.len() as int;
        assert(code[jump] == Instruction::CJump((s2.code.len() + 1) as usize)) by {
            assert(s3.code[jump] == Instruction::CJump((s2.code.len() + 1) as usize));
            assert(s4.code[jump] == s3.code[jump]);
            assert(t.code[jump] == s4.code[jump]);
        }
        let end = s2.code.len() as int;
        assert(code[end] == t.code[end]);
        let (mid, mid_w, test) = evaluated(m, env, fuel, store, world, *pred)->0;
        let n1 = runs(m, env, below, fuel, code, s, store, temps, world, *pred);
        let tested = behind(s1, below, mid, temps, test, mid_w);
        on_top(below, mid, temps, test->0);
        if (m.is_true)(test->0) {
            let yes = before(s3, below, mid, temps, mid_w);
            one_step(m, base, code, tested, yes);
            goes_on(m, base, code, from, n1, tested, 1, yes);
            let n2 = runs(m, env, below, fuel, code, s3, mid, temps, mid_w, *if_true);
            goes_on(m, base, code, from, n1 + 1, yes, n2, to);
            n1 + 1 + n2
        } else {
            let no = before(f0, below, mid, temps, mid_w);
            one_step(m, base, code, tested, no);
            goes_on(m, base, code, from, n1, tested, 1, no);
            let n2 = runs(m, env, below, fuel, code, f0, mid, temps, mid_w, *if_false);
            let done = behind(s2, below, last, temps, value, last_w);
            goes_on(m, base, code, from, n1 + 1, no, n2, done);
            one_step(m, base, code, done, to);
            goes_on(m, base, code, from, n1 + 1 + n2, done, 1, to);
            n1 + 1 + n2 + 1
        }
    } else {
        0
    }
}

#[verifier::rlimit(40)]
#[verifier::spinoff_prover]
proof fn operation_runs<E: CompilerEnv>(
    m: Meaning,
    env: E,
    below: Seq<int>,
    fuel: nat,
    code: Seq<Instruction>,
    s: Emitted,
    store: Store,
    temps: Seq<int>,
    world: int,
    expr: VmExpr,
) -> (n: nat)
    requires
        expr.value is BinOp,
        compiled(env, s, expr) is Some,
        well_placed(expr, temps.len() == 0),
        agrees(s.vars, store),
        emits(code, s, compiled(env, s, expr)->0),
        meant(m, env, fuel, store, world, expr) is Some,
    ensures
        meant(m, env, fuel, store, world, expr) matches Some((after, w, value)) && agrees(
            s.vars,
            after,
        ) && reached(
            m,
            below.len(),
            code,
            n,
            before(s, below, store, temps, world),
            behind(compiled(env, s, expr)->0, below, after, temps, value, w),
        ),
    decreases fuel, expr, 0nat,
{
    let t = compiled(env, s, expr)->0;
    let from = before(s, below, store, temps, world);
    let (last, last_w, value) = meant(m, env, fuel, store, world, expr)->0;
    let to = behind(t, below, last, temps, value, last_w);
    let base = below.len();
    if let VmExprKind::BinOp(lhs, op, rhs) = expr.value {
        let s1 = compiled(env, s, *lhs)->0;
        let s2 = compiled(env, s1, *rhs)->0;
        compiled_extends(env, s, *lhs);
        compiled_extends(env, s1, *rhs);
        vars_are_kept(env, s, *lhs, temps.len() == 0);
        assert forall|i: int| s.code.len() <= i < s1.code.len() implies #[trigger] code[i]
            == s1.code[i] by {
            assert(s2.code[i] == s1.code[i]);
            assert(t.code[i] == s2.code[i]);
        }
        assert forall|i: int| s1.code.len() <= i < s2.code.len() implies #[trigger] code[i]
            == s2.code[i] by {
            assert(t.code[i] == s2.code[i]);
        }
        let (mid, mid_w, l) = evaluated(m, env, fuel, store, world, *lhs)->0;
        let (_, _, r) = evaluated(m, env, fuel, mid, mid_w, *rhs)->0;
        let n1 = runs(m, env, below, fuel, code, s, store, temps, world, *lhs);
        on_top(below, mid, temps, l->0);
        let more = temps.push(l->0);
        let n2 = runs(m, env, below, fuel, code, s1, mid, more, mid_w, *rhs);
        let one = before(s1, below, mid, more, mid_w);
        let two = behind(s2, below, last, more, r, last_w);
        goes_on(m, base, code, from, n1, one, n2, two);
        on_top(below, last, temps, l->0);
        on_top(below, last, more, r->0);
        let at = s2.code.len() as int;
        assert(code[at] == t.code[at]);
        let k = two.stack.len() as int;
        assert(two.stack.take(k - 2) =~= stack_of(below, last, temps));
        assert(two.stack[k - 1] == r->0);
        assert(two.stack[k - 2] == l->0) by {
            assert(two.stack.drop_last()[k - 2] == l->0);
        }
        assert(operator(*lhs.typ, op@) == Some(code[at]));
        one_step(m, base, code, two, to);
        goes_on(m, base, code, from, n1 + n2, two, 1, to);
        n1 + n2 + 1
    } else {
        0
    }
}

proof fn access_runs<E: CompilerEnv>(
    m: Meaning,
    env: E,
    below: Seq<int>,
    fuel: nat,
    code: Seq<Instruction>,
    s: Emitted,
    store: Store,
    temps: Seq<int>,
    world: int,
    expr: VmExpr,
) -> (n: nat)
    requires
        expr.value is FieldAccess,
        compiled(env, s, expr) is Some,
        well_placed(expr, temps.len() == 0),
        agrees(s.vars, store),
        emits(code, s, compiled(env, s, expr)->0),
        meant(m, env, fuel, store, world, expr) is Some,
    ensures
        meant(m, env, fuel, store, world, expr) matches Some((after, w, value)) && agrees(
            s.vars,
            after,
        ) && reached(
            m,
            below.len(),
            code,
            n,
            before(s, below, store, temps, world),
            behind(compiled(env, s, expr)->0, below, after, temps, value, w),
        ),
    decreases fuel, expr, 0nat,
{
    let t = compiled(env, s, expr)->0;
    let from = before(s, below, store, temps, world);
    let (last, last_w, value) = meant(m, env, fuel, store, world, expr)->0;
    let to = behind(t, below, last, temps, value, last_w);
    let base = below.len();
    if let VmExprKind::FieldAccess(owner, _) = expr.value {
        let s1 = compiled(env, s, *owner)->0;
        compiled_extends(env, s, *owner);
        assert forall|i: int| s.code.len() <= i < s1.code.len() implies #[trigger] code[i]
            == s1.code[i] by {
            assert(t.code[i] == s1.code[i]);
        }
        let (_, _, o) = evaluated(m, env, fuel, store, world, *owner)->0;
        let n1 = runs(m, env, below, fuel, code, s, store, temps, world, *owner);
        let one = behind(s1, below, last, temps, o, last_w);
        on_top(below, last, temps, o->0);
        let at = s1.code.len() as int;
        assert(code[at] == t.code[at]);
        one_step(m, base, code, one, to);
        goes_on(m, base, code, from, n1, one, 1, to);
        n1 + 1
    } else {
        0
    }
}

/// What is left of a store when one of its variables is assigned to.
proof fn assigned(below: Seq<int>, store: Store, temps: Seq<int>, i: int, v: int, vars: Vars)
    requires
        0 <= i < store.len(),
        agrees(vars, store),
    ensures
        agrees(vars, store.update(i, (store[i].0, v))),
        stack_of(below, store, temps).update(below.len() + i, v) == stack_of(
            below,
            store.update(i, (store[i].0, v)),
            temps,
        ),
{
    let after = store.update(i, (store[i].0, v));
    assert forall|k: int| 0 <= k < vars.len() implies (#[trigger] vars[k]).0 == after[k].0 by {}
    assert(stack_of(below, store, temps).update(below.len() + i, v) =~= stack_of(
        below,
        after,
        temps,
    ));
}

#[verifier::rlimit(40)]
#[verifier::spinoff_prover]
proof fn assignment_runs<E: CompilerEnv>(
    m: Meaning,
    env: E,
    below: Seq<int>,
    fuel: nat,
    code: Seq<Instruction>,
    s: Emitted,
    store: Store,
    temps: Seq<int>,
    world: int,
    expr: VmExpr,
) -> (n: nat)
    requires
        expr.value is Assign,
        compiled(env, s, expr) is Some,
        well_placed(expr, temps.len() == 0),
        agrees(s.vars, store),
        emits(code, s, compiled(env, s, expr)->0),
        meant(m, env, fuel, store, world, expr) is Some,
    ensures
        meant(m, env, fuel, store, world, expr) matches Some((after, w, value)) && agrees(
            s.vars,
            after,
        ) && reached(
            m,
            below.len(),
            code,
            n,
            before(s, below, store, temps, world),
            behind(compiled(env, s, expr)->0, below, after, temps, value, w),
        ),
    decreases fuel, expr, 0nat,
{
    let t = compiled(env, s, expr)->0;
    let from = before(s, below, store, temps, world);
    let (last, last_w, value) = meant(m, env, fuel, store, world, expr)->0;
    let to = behind(t, below, last, temps, value, last_w);
    let base = below.len();
    if let VmExprKind::Assign(lhs, rhs) = expr.value {
        let s1 = compiled(env, s, *rhs)->0;
        let (mid, mid_w, v) = evaluated(m, env, fuel, store, world, *rhs)->0;
        compiled_extends(env, s, *rhs);
        vars_are_kept(env, s, *rhs, temps.len() == 0);
        on_top(below, mid, temps, v->0);
        let one = behind(s1, below, mid, temps, v, mid_w);
        match lhs.value {
            VmExprKind::Identifier(id) => {
                assert forall|i: int| s.code.len() <= i < s1.code.len() implies #[trigger] code[i]
                    == s1.code[i] by {
                    assert(t.code[i] == s1.code[i]);
                }
                let n1 = runs(m, env, below, fuel, code, s, store, temps, world, *rhs);
                found_in_place(s1.vars, mid, id.name@);
                let i = place(mid, id.name@)->0;
                assigned(below, mid, temps, i, v->0, s.vars);
                let at = s1.code.len() as int;
                assert(code[at] == t.code[at]);
                one_step(m, base, code, one, to);
                goes_on(m, base, code, from, n1, one, 1, to);
                n1 + 1
            },
            VmExprKind::FieldAccess(owner, _) => {
                let s2 = compiled(env, s1, *owner)->0;
                compiled_extends(env, s1, *owner);
                assert forall|i: int| s.code.len() <= i < s1.code.len() implies #[trigger] code[i]
                    == s1.code[i] by {
                    assert(s2.code[i] == s1.code[i]);
                    assert(t.code[i] == s2.code[i]);
                }
                assert forall|i: int| s1.code.len() <= i < s2.code.len() implies #[trigger] code[i]
                    == s2.code[i] by {
                    assert(t.code[i] == s2.code[i]);
                }
                let n1 = runs(m, env, below, fuel, code, s, store, temps, world, *rhs);
                let more = temps.push(v->0);
                let (_, w2, o) = evaluated(m, env, fuel, mid, mid_w, *owner)->0;
                let n2 = runs(m, env, below, fuel, code, s1, mid, more, mid_w, *owner);
                let two = behind(s2, below, last, more, o, w2);
                goes_on(m, base, code, from, n1, before(s1, below, mid, more, mid_w), n2, two);
                on_top(below, last, temps, v->0);
                on_top(below, last, more, o->0);
                let at = s2.code.len() as int;
                assert(code[at] == t.code[at]);
                let k = two.stack.len() as int;
                assert(two.stack.take(k - 2) =~= stack_of(below, last, temps));
                assert(two.stack[k - 2] == v->0) by {
                    assert(two.stack.drop_last()[k - 2] == v->0);
                }
                one_step(m, base, code, two, to);
                goes_on(m, base, code, from, n1 + n2, two, 1, to);
                n1 + n2 + 1
            },
            _ => 0,
        }
    } else {
        0
    }
}

proof fn args_extend<E: CompilerEnv>(
    env: E,
    s: Emitted,
    exprs: Seq<VmExpr>,
    k: nat,
    n: nat,
    pop: bool,
)
    requires
        k <= n <= exprs.len(),
        compiled_all(env, s, exprs, n, pop) is Some,
    ensures
        compiled_all(env, s, exprs, k, pop) is Some,
        extends(compiled_all(env, s, exprs, k, pop)->0, compiled_all(env, s, exprs, n, pop)->0),
    decreases n,
{
    if k < n {
        args_extend(env, s, exprs, k, (n - 1) as nat, pop);
        let u = compiled_all(env, s, exprs, (n - 1) as nat, pop)->0;
        compiled_extends(env, u, exprs[n - 1]);
    }
}

#[verifier::rlimit(40)]
#[verifier::spinoff_prover]
proof fn args_run<E: CompilerEnv>(
    m: Meaning,
    env: E,
    below: Seq<int>,
    fuel: nat,
    code: Seq<Instruction>,
    s: Emitted,
    store: Store,
    temps: Seq<int>,
    world: int,
    args: Seq<VmExpr>,
    n: nat,
) -> (k: nat)
    requires
        n <= args.len(),
        forall|i: int| 0 <= i < args.len() ==> well_placed(#[trigger] args[i], false),
        agrees(s.vars, store),
        compiled_all(env, s, args, n, false) is Some,
        emits(code, s, compiled_all(env, s, args, n, false)->0),
        evaluated_args(m, env, fuel, store, world, args, n) is Some,
    ensures
        evaluated_args(m, env, fuel, store, world, args, n) matches Some((after, w, results))
            && agrees(s.vars, after) && results.len() == n && reached(
            m,
            below.len(),
            code,
            k,
            before(s, below, store, temps, world),
            before(
                compiled_all(env, s, args, n, false)->0,
                below,
                after,
                temps + results,
                w,
            ),
        ),
    decreases fuel, args, n,
{
    let base = below.len();
    let from = before(s, below, store, temps, world);
    if n == 0 {
        assert(temps + Seq::empty() =~= temps);
        0
    } else {
        let u = compiled_all(env, s, args, (n - 1) as nat, false)->0;
        let t = compiled_all(env, s, args, n, false)->0;
        args_extend(env, s, args, (n - 1) as nat, n, false);
        compiled_all_extends(env, s, args, (n - 1) as nat, false);
        args_keep_vars(env, s, args, (n - 1) as nat);
        let (mid, mid_w, so_far) = evaluated_args(
            m,
            env,
            fuel,
            store,
            world,
            args,
            (n - 1) as nat,
        )->0;
        assert forall|i: int| s.code.len() <= i < u.code.len() implies #[trigger] code[i]
            == u.code[i] by {
            assert(t.code[i] == u.code[i]);
        }
        let n1 = args_run(
            m,
            env,
            below,
            fuel,
            code,
            s,
            store,
            temps,
            world,
            args,
            (n - 1) as nat,
        );
        let more = temps + so_far;
        placed_on_top(args[n - 1]);
        let n2 = runs(m, env, below, fuel, code, u, mid, more, mid_w, args[n - 1]);
        let (after, w, value) = evaluated(m, env, fuel, mid, mid_w, args[n - 1])->0;
        on_top(below, after, more, value->0);
        assert(more.push(value->0) =~= temps + so_far.push(value->0));
        let to = before(t, below, after, temps + so_far.push(value->0), w);
        goes_on(m, base, code, from, n1, before(u, below, mid, more, mid_w), n2, to);
        n1 + n2
    }
}

/// What may stand where other values are on the stack may stand where none are.
proof fn placed_on_top(expr: VmExpr)
    requires
        well_placed(expr, false),
    ensures
        well_placed(expr, true),
    decreases expr,
{
    match expr.value {
        VmExprKind::IfElse(pred, if_true, if_false) => {
            placed_on_top(*pred);
            placed_on_top(*if_true);
            placed_on_top(*if_false);
        },
        VmExprKind::Block(exprs) => {
            assert forall|i: int| 0 <= i < exprs@.len() implies match (#[trigger] exprs@[i]).value {
                VmExprKind::Let(_, value) => *exprs@[i].typ is Unit && well_placed(*value, true),
                _ => well_placed(exprs@[i], true),
            } by {
                if !(exprs@[i].value is Let) {
                    placed_on_top(exprs@[i]);
                }
            }
        },
        VmExprKind::BinOp(lhs, _, _) => placed_on_top(*lhs),
        VmExprKind::Call(func, _) => placed_on_top(*func),
        VmExprKind::While(pred, body) => {
            placed_on_top(*pred);
            placed_on_top(*body);
        },
        VmExprKind::Assign(_, rhs) => placed_on_top(*rhs),
        VmExprKind::FieldAccess(owner, _) => placed_on_top(*owner),
        _ => {},
    }
}

#[verifier::rlimit(40)]
#[verifier::spinoff_prover]
proof fn call_runs<E: CompilerEnv>(
    m: Meaning,
    env: E,
    below: Seq<int>,
    fuel: nat,
    code: Seq<Instruction>,
    s: Emitted,
    store: Store,
    temps: Seq<int>,
    world: int,
    expr: VmExpr,
) -> (n: nat)
    requires
        expr.value is Call,
        compiled(env, s, expr) is Some,
        well_placed(expr, temps.len() == 0),
        agrees(s.vars, store),
        emits(code, s, compiled(env, s, expr)->0),
        meant(m, env, fuel, store, world, expr) is Some,
    ensures
        meant(m, env, fuel, store, world, expr) matches Some((after, w, value)) && agrees(
            s.vars,
            after,
        ) && reached(
            m,
            below.len(),
            code,
            n,
            before(s, below, store, temps, world),
            behind(compiled(env, s, expr)->0, below, after, temps, value, w),
        ),
    decreases fuel, expr, 0nat,
{
    let t = compiled(env, s, expr)->0;
    let from = before(s, below, store, temps, world);
    let (last, last_w, value) = meant(m, env, fuel, store, world, expr)->0;
    let to = behind(t, below, last, temps, value, last_w);
    let base = below.len();
    if let VmExprKind::Call(func, args) = expr.value {
        assert(args.len() == args@.len());
        let count = args@.len() as int;
        if let VmExprKind::Identifier(id) = func.value {
            found_in_place(s.vars, store, id.name@);
        }
        if let Some((tag, num_args)) = constructor_of(env, store, *func) {
            let u = compiled_all(env, s, args@, args@.len(), false)->0;
            compiled_all_extends(env, s, args@, args@.len(), false);
            assert forall|i: int| s.code.len() <= i < u.code.len() implies #[trigger] code[i]
                == u.code[i] by {
                assert(t.code[i] == u.code[i]);
            }
            let n1 = args_run(
                m,
                env,
                below,
                fuel,
                code,
                s,
                store,
                temps,
                world,
                args@,
                args@.len(),
            );
            let (after, w, results) = evaluated_args(
                m,
                env,
                fuel,
                store,
                world,
                args@,
                args@.len(),
            )->0;
            let one = before(u, below, after, temps + results, w);
            let k = one.stack.len() as int;
            assert(one.stack.take(k - count) =~= stack_of(below, after, temps));
            assert(one.stack.skip(k - count) =~= results);
            let at = u.code.len() as int;
            assert(code[at] == t.code[at]);
            one_step(m, base, code, one, to);
            goes_on(m, base, code, from, n1, one, 1, to);
            n1 + 1
        } else {
            let s1 = compiled(env, s, *func)->0;
            let u = compiled_all(env, s1, args@, args@.len(), false)->0;
            compiled_extends(env, s, *func);
            compiled_all_extends(env, s1, args@, args@.len(), false);
            vars_are_kept(env, s, *func, temps.len() == 0);
            assert forall|i: int| s.code.len() <= i < s1.code.len() implies #[trigger] code[i]
                == s1.code[i] by {
                assert(u.code[i] == s1.code[i]);
                assert(t.code[i] == u.code[i]);
            }
            assert forall|i: int| s1.code.len() <= i < u.code.len() implies #[trigger] code[i]
                == u.code[i] by {
                assert(t.code[i] == u.code[i]);
            }
            let (mid, mid_w, f) = evaluated(m, env, fuel, store, world, *func)->0;
            let n1 = runs(m, env, below, fuel, code, s, store, temps, world, *func);
            on_top(below, mid, temps, f->0);
            let more = temps.push(f->0);
            let n2 = args_run(
                m,
                env,
                below,
                fuel,
                code,
                s1,
                mid,
                more,
                mid_w,
                args@,
                args@.len(),
            );
            let (after, w, results) = evaluated_args(
                m,
                env,
                fuel,
                mid,
                mid_w,
                args@,
                args@.len(),
            )->0;
            let one = before(s1, below, mid, more, mid_w);
            let two = before(u, below, after, more + results, w);
            goes_on(m, base, code, from, n1, one, n2, two);
            let k = two.stack.len() as int;
            assert(two.stack.take(k - count - 1) =~= stack_of(below, after, temps));
            assert(two.stack.skip(k - count) =~= results);
            assert(two.stack[k - count - 1] == f->0);
            let at = u.code.len() as int;
            assert(code[at] == t.code[at]);
            one_step(m, base, code, two, to);
            goes_on(m, base, code, from, n1 + n2, two, 1, to);
            n1 + n2 + 1
        }
    } else {
        0
    }
}

/// The rounds of a loop, from its test on.
#[verifier::rlimit(40)]
#[verifier::spinoff_prover]
proof fn rounds_run<E: CompilerEnv>(
    m: Meaning,
    env: E,
    below: Seq<int>,
    fuel: nat,
    code: Seq<Instruction>,
    s: Emitted,
    store: Store,
    temps: Seq<int>,
    world: int,
    expr: VmExpr,
) -> (n: nat)
    requires
        expr.value is While,
        compiled(env, s, expr) is Some,
        well_placed(expr, temps.len() == 0),
        agrees(s.vars, store),
        emits(code, s, compiled(env, s, expr)->0),
        meant(m, env, fuel, store, world, expr) is Some,
    ensures
        meant(m, env, fuel, store, world, expr) matches Some((after, w, value)) && value is None
            && agrees(s.vars, after) && (expr.value matches VmExprKind::While(_, body) && reached(
            m,
            below.len(),
            code,
            n,
            before(
                compiled(env, s.push(Instruction::Jump(0)), *body)->0,
                below,
                store,
                temps,
                world,
            ),
            behind(compiled(env, s, expr)->0, below, after, temps, None, w),
        )),
    decreases fuel, expr, 0nat,
{
    let t = compiled(env, s, expr)->0;
    let from = before(s, below, store, temps, world);
    let (last, last_w, value) = meant(m, env, fuel, store, world, expr)->0;
    let to = behind(t, below, last, temps, value, last_w);
    let base = below.len();
    if let VmExprKind::While(pred, body) = expr.value {
        let top = temps.len() == 0;
        let j = s.code.len() as int;
        let s0 = s.push(Instruction::Jump(0));
        let u = compiled(env, s0, *body)->0;
        let patched = u.patch(j, Instruction::Jump(u.code.len() as usize));
        let v = compiled(env, patched, *pred)->0;
        compiled_extends(env, s0, *body);
        compiled_extends(env, patched, *pred);
        vars_are_kept(env, s0, *body, top);
        assert forall|i: int| s0.code.len() <= i < u.code.len() implies #[trigger] code[i]
            == u.code[i] by {
            assert(patched.code[i] == u.code[i]);
            assert(v.code[i] == patched.code[i]);
            assert(t.code[i] == v.code[i]);
        }
        assert forall|i: int| patched.code.len() <= i < v.code.len() implies #[trigger] code[i]
            == v.code[i] by {
            assert(t.code[i] == v.code[i]);
        }
        let start = before(u, below, store, temps, world);
        assert(start == before(patched, below, store, temps, world));
        let (mid, mid_w, test) = evaluated(m, env, fuel, store, world, *pred)->0;
        let n1 = runs(m, env, below, fuel, code, patched, store, temps, world, *pred);
        let one = behind(v, below, mid, temps, test, mid_w);
        on_top(below, mid, temps, test->0);
        let at = v.code.len() as int;
        assert(code[at] == t.code[at]);
        if (m.is_true)(test->0) {
            let again = before(s0, below, mid, temps, mid_w);
            one_step(m, base, code, one, again);
            goes_on(m, base, code, start, n1, one, 1, again);
            let (next, next_w, _) = evaluated(m, env, fuel, mid, mid_w, *body)->0;
            let n2 = runs(m, env, below, fuel, code, s0, mid, temps, mid_w, *body);
            let two = before(u, below, next, temps, next_w);
            goes_on(m, base, code, start, n1 + 1, again, n2, two);
            let n3 = rounds_run(
                m,
                env,
                below,
                (fuel - 1) as nat,
                code,
                s,
                next,
                temps,
                next_w,
                expr,
            );
            let end = behind(t, below, last, temps, None, last_w);
            goes_on(m, base, code, start, n1 + 1 + n2, two, n3, end);
            n1 + 1 + n2 + n3
        } else {
            let end = behind(t, below, mid, temps, None, mid_w);
            one_step(m, base, code, one, end);
            goes_on(m, base, code, start, n1, one, 1, end);
            n1 + 1
        }
    } else {
        0
    }
}

#[verifier::rlimit(40)]
#[verifier::spinoff_prover]
proof fn loop_runs<E: CompilerEnv>(
    m: Meaning,
    env: E,
    below: Seq<int>,
    fuel: nat,
    code: Seq<Instruction>,
    s: Emitted,
    store: Store,
    temps: Seq<int>,
    world: int,
    expr: VmExpr,
) -> (n: nat)
    requires
        expr.value is While,
        compiled(env, s, expr) is Some,
        well_placed(expr, temps.len() == 0),
        agrees(s.vars, store),
        emits(code, s, compiled(env, s, expr)->0),
        meant(m, env, fuel, store, world, expr) is Some,
    ensures
        meant(m, env, fuel, store, world, expr) matches Some((after, w, value)) && agrees(
            s.vars,
            after,
        ) && reached(
            m,
            below.len(),
            code,
            n,
            before(s, below, store, temps, world),
            behind(compiled(env, s, expr)->0, below, after, temps, value, w),
        ),
    decreases fuel, expr, 1nat,
{
    let t = compiled(env, s, expr)->0;
    let from = before(s, below, store, temps, world);
    let (last, last_w, value) = meant(m, env, fuel, store, world, expr)->0;
    let to = behind(t, below, last, temps, value, last_w);
    let base = below.len();
    if let VmExprKind::While(pred, body) = expr.value {
        let j = s.code.len() as int;
        let s0 = s.push(Instruction::Jump(0));
        let u = compiled(env, s0, *body)->0;
        let patched = u.patch(j, Instruction::Jump(u.code.len() as usize));
        let v = compiled(env, patched, *pred)->0;
        compiled_extends(env, s0, *body);
        compiled_extends(env, patched, *pred);
        let start = before(u, below, store, temps, world);
        assert(code[j] == Instruction::Jump(u.code.len() as usize)) by {
            assert(v.code[j] == patched.code[j]);
            assert(t.code[j] == v.code[j]);
        }
        let n = rounds_run(m, env, below, fuel, code, s, store, temps, world, expr);
        one_step(m, base, code, from, start);
        goes_on(m, base, code, from, 1, start, n, to);
        1 + n
    } else {
        0
    }
}

#[verifier::rlimit(40)]
#[verifier::spinoff_prover]
proof fn statement_runs<E: CompilerEnv>(
    m: Meaning,
    env: E,
    below: Seq<int>,
    fuel: nat,
    code: Seq<Instruction>,
    s: Emitted,
    store: Store,
    temps: Seq<int>,
    world: int,
    expr: VmExpr,
) -> (n: nat)
    requires
        compiled(env, s, expr) is Some,
        statement_placed(expr, temps.len() == 0),
        agrees(s.vars, store),
        emits(code, s, compiled(env, s, expr)->0),
        evaluated(m, env, fuel, store, world, expr) is Some,
    ensures
        evaluated(m, env, fuel, store, world, expr) matches Some((after, w, value)) && agrees(
            compiled(env, s, expr)->0.vars,
            after,
        ) && reached(
            m,
            below.len(),
            code,
            n,
            before(s, below, store, temps, world),
            behind(compiled(env, s, expr)->0, below, after, temps, value, w),
        ),
    decreases fuel, expr, 3nat,
{
    statement_declares(env, s, expr, temps.len() == 0);
    match expr.value {
        VmExprKind::Let(id, inner) => {
            let t = compiled(env, s, expr)->0;
            let base = below.len();
            let from = before(s, below, store, temps, world);
            let u = compiled(env, s, *inner)->0;
            let (mid, mid_w, v) = evaluated(m, env, fuel, store, world, *inner)->0;
            let value = value_or_zero(m, v);
            let after = mid.push((id.name@, value));
            let to = behind(t, below, after, temps, None, mid_w);
            compiled_extends(env, s, *inner);
            vars_are_kept(env, s, *inner, true);
            assert forall|i: int| s.code.len() <= i < u.code.len() implies #[trigger] code[i]
                == u.code[i] by {
                assert(t.code[i] == u.code[i]);
            }
            let n1 = runs(m, env, below, fuel, code, s, store, temps, world, *inner);
            let one = behind(u, below, mid, temps, v, mid_w);
            assert(stack_of(below, mid, temps).push(value) =~= stack_of(below, after, temps));
            assert forall|i: int| 0 <= i < t.vars.len() implies (#[trigger] t.vars[i]).0
                == after[i].0 by {
                if i < s.vars.len() {
                    assert(t.vars[i] == s.vars[i]);
                }
            }
            if v is None {
                let at = u.code.len() as int;
                assert(code[at] == t.code[at]);
                one_step(m, base, code, one, to);
                goes_on(m, base, code, from, n1, one, 1, to);
                n1 + 1
            } else {
                n1
            }
        },
        _ => runs(m, env, below, fuel, code, s, store, temps, world, expr),
    }
}

#[verifier::rlimit(40)]
#[verifier::spinoff_prover]
proof fn statements_run<E: CompilerEnv>(
    m: Meaning,
    env: E,
    below: Seq<int>,
    fuel: nat,
    code: Seq<Instruction>,
    s: Emitted,
    store: Store,
    temps: Seq<int>,
    world: int,
    exprs: Seq<VmExpr>,
    n: nat,
) -> (k: nat)
    requires
        n <= exprs.len(),
        forall|i: int|
            0 <= i < exprs.len() ==> statement_placed(#[trigger] exprs[i], temps.len() == 0),
        agrees(s.vars, store),
        compiled_all(env, s, exprs, n, true) is Some,
        emits(code, s, compiled_all(env, s, exprs, n, true)->0),
        evaluated_all(m, env, fuel, store, world, exprs, n) is Some,
    ensures
        evaluated_all(m, env, fuel, store, world, exprs, n) matches Some((after, w, _)) && agrees(
            compiled_all(env, s, exprs, n, true)->0.vars,
            after,
        ) && reached(
            m,
            below.len(),
            code,
            k,
            before(s, below, store, temps, world),
            before(compiled_all(env, s, exprs, n, true)->0, below, after, temps, w),
        ),
    decreases fuel, exprs, n,
{
    let base = below.len();
    let from = before(s, below, store, temps, world);
    if n == 0 {
        0
    } else {
        let expr = exprs[n - 1];
        let u = compiled_all(env, s, exprs, (n - 1) as nat, true)->0;
        let v = compiled(env, u, expr)->0;
        let t = compiled_all(env, s, exprs, n, true)->0;
        compiled_all_extends(env, s, exprs, (n - 1) as nat, true);
        compiled_extends(env, u, expr);
        assert forall|i: int| s.code.len() <= i < u.code.len() implies #[trigger] code[i]
            == u.code[i] by {
            assert(v.code[i] == u.code[i]);
            assert(t.code[i] == v.code[i]);
        }
        assert forall|i: int| u.code.len() <= i < v.code.len() implies #[trigger] code[i]
            == v.code[i] by {
            assert(t.code[i] == v.code[i]);
        }
        let n1 = statements_run(
            m,
            env,
            below,
            fuel,
            code,
            s,
            store,
            temps,
            world,
            exprs,
            (n - 1) as nat,
        );
        let (mid, mid_w, _) = evaluated_all(
            m,
            env,
            fuel,
            store,
            world,
            exprs,
            (n - 1) as nat,
        )->0;
        let n2 = statement_runs(m, env, below, fuel, code, u, mid, temps, mid_w, expr);
        let (after, w, value) = evaluated(m, env, fuel, mid, mid_w, expr)->0;
        let one = before(u, below, mid, temps, mid_w);
        let two = behind(v, below, after, temps, value, w);
        let to = before(t, below, after, temps, w);
        goes_on(m, base, code, from, n1, one, n2, two);
        if value is Some {
            on_top(below, after, temps, value->0);
            let at = v.code.len() as int;
            assert(code[at] == t.code[at]);
            assert(two.stack.take(two.stack.len() - 1) =~= two.stack.drop_last());
            one_step(m, base, code, two, to);
            goes_on(m, base, code, from, n1 + n2, two, 1, to);
            n1 + n2 + 1
        } else {
            n1 + n2
        }
    }
}

/// What is left of the stack when the last variables are taken off it.
proof fn without_the_last(below: Seq<int>, store: Store, value: Option<int>, count: nat)
    requires
        count <= store.len(),
    ensures
        ({
            let none = Seq::<int>::empty();
            let stack = and_maybe(stack_of(below, store, none), value);
            let less = stack_of(below, store.take(count as int), none);
            let diff = store.len() - count;
            &&& stack.len() == below.len() + store.len() + if value is Some {
                1int
            } else {
                0
            }
            &&& value is None ==> stack.take(stack.len() - diff) == less
            &&& value is Some ==> stack.take(stack.len() - diff - 1) == less && stack.last()
                == value->0
        }),
{
    let none = Seq::<int>::empty();
    let stack = and_maybe(stack_of(below, store, none), value);
    let less = stack_of(below, store.take(count as int), none);
    let diff = store.len() - count;
    if value is None {
        assert(stack.take(stack.len() - diff) =~= less);
    } else {
        assert(stack.take(stack.len() - diff - 1) =~= less);
    }
}

#[verifier::rlimit(40)]
#[verifier::spinoff_prover]
proof fn block_runs<E: CompilerEnv>(
    m: Meaning,
    env: E,
    below: Seq<int>,
    fuel: nat,
    code: Seq<Instruction>,
    s: Emitted,
    store: Store,
    temps: Seq<int>,
    world: int,
    expr: VmExpr,
) -> (n: nat)
    requires
        expr.value is Block,
        meant(m, env, fuel, store, world, expr) matches Some((_, _, value)) && (value is None)
            == (*expr.typ is Unit),
        compiled(env, s, expr) is Some,
        well_placed(expr, temps.len() == 0),
        agrees(s.vars, store),
        emits(code, s, compiled(env, s, expr)->0),
        meant(m, env, fuel, store, world, expr) is Some,
    ensures
        meant(m, env, fuel, store, world, expr) matches Some((after, w, value)) && agrees(
            s.vars,
            after,
        ) && reached(
            m,
            below.len(),
            code,
            n,
            before(s, below, store, temps, world),
            behind(compiled(env, s, expr)->0, below, after, temps, value, w),
        ),
    decreases fuel, expr, 0nat,
{
    let t = compiled(env, s, expr)->0;
    let from = before(s, below, store, temps, world);
    let (last, last_w, value) = meant(m, env, fuel, store, world, expr)->0;
    let to = behind(t, below, last, temps, value, last_w);
    let base = below.len();
    if let VmExprKind::Block(exprs) = expr.value {
        let top = temps.len() == 0;
        let k = exprs@.len();
        assert forall|i: int| 0 <= i < exprs@.len() implies statement_placed(
            #[trigger] exprs@[i],
            top,
        ) by {
            statement_placed_at(exprs@, top, i);
        }
        if k == 0 {
            assert(store.take(store.len() as int) =~= store);
            0
        } else {
            let e = exprs@[k - 1];
            let u = compiled_all(env, s, exprs@, (k - 1) as nat, true)->0;
            let v = compiled(env, u, e)->0;
            let left = forget_lets(v, exprs@, k);
            block_forgets(env, s, exprs@, top);
            let added = statements_declare(env, s, exprs@, (k - 1) as nat, top);
            statement_declares(env, u, e, top);
            crate::compiler::forget_lets_keeps_code(v, exprs@, k);
            compiled_all_extends(env, s, exprs@, (k - 1) as nat, true);
            assert(decreases_to!(exprs@ => exprs@[k - 1]));
            compiled_extends(env, u, e);
            assert forall|i: int| s.code.len() <= i < u.code.len() implies #[trigger] code[i]
                == u.code[i] by {
                assert(v.code[i] == u.code[i]);
                assert(t.code[i] == v.code[i]);
            }
            assert forall|i: int| u.code.len() <= i < v.code.len() implies #[trigger] code[i]
                == v.code[i] by {
                assert(t.code[i] == v.code[i]);
            }
            let n1 = statements_run(
                m,
                env,
                below,
                fuel,
                code,
                s,
                store,
                temps,
                world,
                exprs@,
                (k - 1) as nat,
            );
            let (mid, mid_w, _) = evaluated_all(
                m,
                env,
                fuel,
                store,
                world,
                exprs@,
                (k - 1) as nat,
            )->0;
            let n2 = statement_runs(m, env, below, fuel, code, u, mid, temps, mid_w, e);
            let (after, w, _) = evaluated(m, env, fuel, mid, mid_w, e)->0;
            let one = before(u, below, mid, temps, mid_w);
            let two = behind(v, below, after, temps, value, w);
            goes_on(m, base, code, from, n1, one, n2, two);
            let diff = v.vars.len() - s.vars.len();
            assert(last == after.take(store.len() as int));
            assert forall|i: int| 0 <= i < s.vars.len() implies (#[trigger] s.vars[i]).0
                == last[i].0 by {
                assert(v.vars[i] == s.vars[i]);
            }
            if diff == 0 {
                assert(last =~= after);
                n1 + n2
            } else {
                assert(temps.len() == 0);
                let at = v.code.len() as int;
                assert(code[at] == t.code[at]);
                without_the_last(below, after, value, store.len());
                assert(temps =~= Seq::empty());
                one_step(m, base, code, two, to);
                goes_on(m, base, code, from, n1 + n2, two, 1, to);
                n1 + n2 + 1
            }
        }
    } else {
        0
    }
}

/// The code of an expression does what the expression means.
proof fn runs<E: CompilerEnv>(
    m: Meaning,
    env: E,
    below: Seq<int>,
    fuel: nat,
    code: Seq<Instruction>,
    s: Emitted,
    store: Store,
    temps: Seq<int>,
    world: int,
    expr: VmExpr,
) -> (n: nat)
    requires
        compiled(env, s, expr) is Some,
        well_placed(expr, temps.len() == 0),
        agrees(s.vars, store),
        emits(code, s, compiled(env, s, expr)->0),
        evaluated(m, env, fuel, store, world, expr) is Some,
    ensures
        evaluated(m, env, fuel, store, world, expr) matches Some((after, w, value)) && agrees(
            s.vars,
            after,
        ) && reached(
            m,
            below.len(),
            code,
            n,
            before(s, below, store, temps, world),
            behind(compiled(env, s, expr)->0, below, after, temps, value, w),
        ),
    decreases fuel, expr, 2nat,
{
    match expr.value {
        VmExprKind::Literal(_) => {
            simple_runs(m, env, below, fuel, code, s, store, temps, world, expr)
        },
        VmExprKind::Identifier(_) => {
            simple_runs(m, env, below, fuel, code, s, store, temps, world, expr)
        },
        VmExprKind::IfElse(_, _, _) => {
            if_runs(m, env, below, fuel, code, s, store, temps, world, expr)
        },
        VmExprKind::Block(_) => {
            block_runs(m, env, below, fuel, code, s, store, temps, world, expr)
        },
        VmExprKind::BinOp(_, _, _) => {
            operation_runs(m, env, below, fuel, code, s, store, temps, world, expr)
        },
        VmExprKind::Call(_, _) => {
            call_runs(m, env, below, fuel, code, s, store, temps, world, expr)
        },
        VmExprKind::While(_, _) => {
            loop_runs(m, env, below, fuel, code, s, store, temps, world, expr)
        },
        VmExprKind::Assign(_, _) => {
            assignment_runs(m, env, below, fuel, code, s, store, temps, world, expr)
        },
        VmExprKind::FieldAccess(_, _) => {
            access_runs(m, env, below, fuel, code, s, store, temps, world, expr)
        },
        _ => 0,
    }
}

/// Compiled code computes the value of the expression, whatever values are and whatever is done with
/// them. Run from its beginning to its end, it leaves the stack as it was, with the variables that
/// were assigned to changed, and puts the value of the expression on top of it; an expression of the
/// type unit leaves nothing there. A function is called with all of its arguments, in order.
pub proof fn code_computes_the_value<E: CompilerEnv>(
    m: Meaning,
    env: E,
    below: Seq<int>,
    fuel: nat,
    s: Emitted,
    store: Store,
    world: int,
    expr: VmExpr,
) -> (n: nat)
    requires
        compiled(env, s, expr) matches Some(t) && t.code.len() <= usize::MAX,
        well_placed(expr, true),
        agrees(s.vars, store),
        evaluated(m, env, fuel, store, world, expr) is Some,
    ensures
        compiled(env, s, expr) matches Some(t) && (evaluated(
            m,
            env,
            fuel,
            store,
            world,
            expr,
        ) matches Some((after, w, value)) && after.len() == store.len() && ran(
            m,
            below.len(),
            t.code,
            n,
            State { at: s.code.len() as int, stack: below + values(store), world },
        ) == Some(
            State {
                at: t.code.len() as int,
                stack: and_maybe(below + values(after), value),
                world: w,
            },
        )),
{
    let t = compiled(env, s, expr)->0;
    compiled_extends(env, s, expr);
    let none = Seq::<int>::empty();
    let n = runs(m, env, below, fuel, t.code, s, store, none, world, expr);
    let (after, _, _) = evaluated(m, env, fuel, store, world, expr)->0;
    assert(stack_of(below, store, none) =~= below + values(store));
    assert(stack_of(below, after, none) =~= below + values(after));
    n
}

} // verus!
