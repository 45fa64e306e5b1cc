//! What the code of a match looks like: each constructor leads to its own branch.

use vstd::prelude::*;
use crate::compiler::{
    bound, branches, compiled, compiled_extends, count_branches, data_name, declared_extends,
    joined, tests, CompilerEnv, Emitted, Instruction, VmAlternative, VmExpr, VmExprKind, VmPattern,
};

verus! {

/// The constructor that an alternative is for.
pub open spec fn constructor(alt: VmAlternative) -> Option<Seq<char>> {
    match alt.pattern {
        VmPattern::ConstructorPattern(id, _) => Some(id.name@),
        VmPattern::IdentifierPattern(_) => None,
    }
}

/// All of `alts` are for constructors.
pub open spec fn all_constructors(alts: Seq<VmAlternative>) -> bool {
    forall|i: int| 0 <= i < alts.len() ==> constructor(#[trigger] alts[i]) is Some
}

/// The test at `at` is for the constructor of `alt`.
pub open spec fn tests_for<E: CompilerEnv>(
    env: E,
    typename: Seq<char>,
    alt: VmAlternative,
    code: Seq<Instruction>,
    at: int,
) -> bool {
    0 <= at < code.len() && (code[at] matches Instruction::TestTag(tag) && env.tag(
        typename,
        constructor(alt)->0,
    ) == Some(tag))
}

proof fn tests_are_laid_out<E: CompilerEnv>(
    env: E,
    start: Emitted,
    typename: Seq<char>,
    alts: Seq<VmAlternative>,
    n: nat,
)
    requires
        all_constructors(alts),
        n <= alts.len(),
    ensures
        tests(env, start, typename, alts, n) matches Some((s, jumps)) ==> {
            &&& jumps.len() == n
            &&& s.code.len() == start.code.len() + 2 * n
            &&& forall|i: int|
                0 <= i < n ==> #[trigger] jumps[i] == start.code.len() + 2 * i + 1
            &&& forall|i: int|
                0 <= i < n ==> tests_for(
                    env,
                    typename,
                    #[trigger] alts[i],
                    s.code,
                    start.code.len() + 2 * i,
                )
        },
    decreases n,
{
    if n > 0 {
        tests_are_laid_out(env, start, typename, alts, (n - 1) as nat);
        assert(constructor(alts[n - 1]) is Some);
        if let Some((u, before)) = tests(env, start, typename, alts, (n - 1) as nat) {
            if let Some((s, jumps)) = tests(env, start, typename, alts, n) {
                assert forall|i: int| 0 <= i < n implies tests_for(
                    env,
                    typename,
                    #[trigger] alts[i],
                    s.code,
                    start.code.len() + 2 * i,
                ) by {
                    if i < n - 1 {
                        assert(tests_for(
                            env,
                            typename,
                            alts[i],
                            u.code,
                            start.code.len() + 2 * i,
                        ));
                        assert(s.code[start.code.len() + 2 * i] == u.code[start.code.len() + 2 * i]);
                    }
                }
            }
        }
    }
}

/// The branch that was begun at `b` is that of `alt`: its value is split, and behind that stands the
/// code of its expression, up to `end`.
pub open spec fn is_branch<E: CompilerEnv>(
    env: E,
    alt: VmAlternative,
    code: Seq<Instruction>,
    b: Emitted,
    end: int,
) -> bool {
    &&& 0 < b.code.len() <= end < code.len()
    &&& code[b.code.len() - 1] == Instruction::Split
    &&& compiled(env, b, alt.expression) matches Some(e) && e.code.len() == end && forall|p: int|
        b.code.len() <= p < end ==> #[trigger] code[p] == e.code[p]
}

/// The branches follow each other, and the jump at `jumps[i]` leads to the branch `i`.
spec fn are_laid_out<E: CompilerEnv>(
    env: E,
    start: Emitted,
    alts: Seq<VmAlternative>,
    jumps: Seq<int>,
    n: nat,
    s: Emitted,
    ends: Seq<int>,
    begun: Seq<Emitted>,
) -> bool {
    &&& begun.len() == n
    &&& ends.len() == n
    &&& start.code.len() <= s.code.len()
    &&& s.code.len() == if n == 0 {
        start.code.len() as int
    } else {
        ends[n - 1] + 1
    }
    &&& forall|i: int| 0 <= i < n ==> is_branch(env, alts[i], s.code, #[trigger] begun[i], ends[i])
    &&& forall|i: int|
        0 <= i < n ==> s.code[jumps[i]] == Instruction::CJump(
            ((#[trigger] begun[i]).code.len() - 1) as usize,
        )
    &&& forall|i: int|
        0 <= i < n ==> (#[trigger] begun[i]).code.len() - 1 == if i == 0 {
            start.code.len() as int
        } else {
            ends[i - 1] + 1
        }
    &&& forall|p: int|
        0 <= p < start.code.len() && !(exists|i: int| 0 <= i < n && #[trigger] jumps[i] == p)
            ==> #[trigger] s.code[p] == start.code[p]
    &&& forall|i: int| 0 <= i < n ==> start.code.len() < #[trigger] ends[i] < s.code.len()
}

#[verifier::rlimit(40)]
proof fn branches_are_laid_out<E: CompilerEnv>(
    env: E,
    start: Emitted,
    alts: Seq<VmAlternative>,
    jumps: Seq<int>,
    n: nat,
) -> (begun: Seq<Emitted>)
    requires
        all_constructors(alts),
        n <= alts.len(),
        jumps.len() == alts.len(),
        forall|i: int| 0 <= i < jumps.len() ==> 0 <= #[trigger] jumps[i] < start.code.len(),
        forall|i: int, j: int|
            0 <= i < j < jumps.len() ==> #[trigger] jumps[i] != #[trigger] jumps[j],
    ensures
        branches(env, start, alts, jumps, n) matches Some((s, ends)) ==> are_laid_out(
            env,
            start,
            alts,
            jumps,
            n,
            s,
            ends,
            begun,
        ),
    decreases n,
{
    if n == 0 {
        Seq::empty()
    } else {
        let before = branches_are_laid_out(env, start, alts, jumps, (n - 1) as nat);
        if let Some((u, so_far)) = branches(env, start, alts, jumps, (n - 1) as nat) {
            let alt = alts[n - 1];
            assert(constructor(alt) is Some);
            let patched = u.patch(jumps[n - 1], Instruction::CJump(u.code.len() as usize));
            if let VmPattern::ConstructorPattern(_, args) = alt.pattern {
                declared_extends(patched.push(Instruction::Split), args@, args@.len());
            }
            if let Some(b) = bound(patched, alt.pattern) {
                compiled_extends(env, b, alt.expression);
                if let Some((s, ends)) = branches(env, start, alts, jumps, n) {
                    let begun = before.push(b);
                    let e = compiled(env, b, alt.expression)->0;
                    assert(b.code == patched.code.push(Instruction::Split));
                    assert(ends == so_far.push(e.code.len() as int));
                    assert forall|p: int| 0 <= p < u.code.len() && p != jumps[n - 1] implies
                        #[trigger] s.code[p] == u.code[p] by {
                        assert(patched.code[p] == u.code[p]);
                        assert(b.code[p] == patched.code[p]);
                        assert(e.code[p] == b.code[p]);
                    }
                    let own = jumps[n - 1];
                    assert(e.code[own] == b.code[own]);
                    assert(e.code[u.code.len() as int] == b.code[u.code.len() as int]);
                    assert forall|i: int| 0 <= i < n implies is_branch(
                        env,
                        alts[i],
                        s.code,
                        #[trigger] begun[i],
                        ends[i],
                    ) by {
                        if i < n - 1 {
                            assert(begun[i] == before[i]);
                            assert(is_branch(env, alts[i], u.code, before[i], so_far[i]));
                            assert(ends[i] == so_far[i]);
                            assert(start.code.len() < so_far[i]);
                            assert(before[i].code.len() - 1 >= start.code.len()) by {
                                if i > 0 {
                                    assert(start.code.len() < so_far[i - 1]);
                                }
                            }
                        }
                    }
                    assert forall|i: int| 0 <= i < n implies s.code[jumps[i]]
                        == Instruction::CJump(((#[trigger] begun[i]).code.len() - 1) as usize) by {
                        if i < n - 1 {
                            assert(begun[i] == before[i]);
                            assert(jumps[i] != jumps[n - 1]);
                        }
                    }
                    assert forall|p: int|
                        0 <= p < start.code.len() && !(exists|i: int|
                            0 <= i < n && #[trigger] jumps[i] == p) implies #[trigger] s.code[p]
                        == start.code[p] by {
                        assert(jumps[n - 1] != p);
                        assert(u.code[p] == start.code[p]);
                    }
                    begun
                } else {
                    Seq::empty()
                }
            } else {
                Seq::empty()
            }
        } else {
            Seq::empty()
        }
    }
}

proof fn ends_are_joined(start: Emitted, ends: Seq<int>, n: nat, target: usize)
    requires
        n <= ends.len(),
        forall|i: int| 0 <= i < ends.len() ==> 0 <= #[trigger] ends[i] < start.code.len(),
    ensures
        joined(start, ends, n, target).code.len() == start.code.len(),
        forall|i: int|
            0 <= i < n ==> joined(start, ends, n, target).code[#[trigger] ends[i]]
                == Instruction::Jump(target),
        forall|p: int|
            0 <= p < start.code.len() && !(exists|i: int| 0 <= i < n && #[trigger] ends[i] == p)
                ==> #[trigger] joined(start, ends, n, target).code[p] == start.code[p],
    decreases n,
{
    if n > 0 {
        ends_are_joined(start, ends, (n - 1) as nat, target);
        let before = joined(start, ends, (n - 1) as nat, target);
        let after = joined(start, ends, n, target);
        assert forall|p: int|
            0 <= p < start.code.len() && !(exists|i: int| 0 <= i < n && #[trigger] ends[i]
                == p) implies #[trigger] after.code[p] == start.code[p] by {
            assert(ends[n - 1] != p);
            assert(before.code[p] == start.code[p]);
        }
    }
}

/// A match tries its alternatives in order: behind the code of the value stands for each of them a
/// test for its own constructor and a jump to its own branch. A branch takes the value apart, goes
/// on with the code of its own expression, and then with what stands behind the match.
#[verifier::rlimit(40)]
pub proof fn constructors_lead_to_their_branches<E: CompilerEnv>(
    env: E,
    s: Emitted,
    expr: VmExpr,
) -> (begun: Seq<Emitted>)
    requires
        expr.value matches VmExprKind::Match(_, alts) && all_constructors(alts@),
        compiled(env, s, expr) matches Some(t) && t.code.len() <= usize::MAX,
    ensures
        expr.value matches VmExprKind::Match(value, alts) && (compiled(env, s, expr) matches Some(t)
            && (compiled(env, s, *value) matches Some(v) && (data_name(*value) matches Some(id) && {
            let tail = |i: int|
                if i + 1 < alts@.len() {
                    begun[i + 1].code.len() - 2
                } else {
                    t.code.len() - 1
                };
            &&& begun.len() == alts@.len()
            &&& forall|i: int|
                0 <= i < alts@.len() ==> tests_for(
                    env,
                    id,
                    #[trigger] alts@[i],
                    t.code,
                    v.code.len() + 2 * i,
                ) && t.code[v.code.len() + 2 * i + 1] == Instruction::CJump(
                    (begun[i].code.len() - 1) as usize,
                ) && is_branch(env, alts@[i], t.code, begun[i], tail(i)) && t.code[tail(i)]
                    == Instruction::Jump(t.code.len() as usize)
        }))),
{
    if let VmExprKind::Match(value, alts) = expr.value {
        let v = compiled(env, s, *value)->0;
        let id = data_name(*value)->0;
        let t = compiled(env, s, expr)->0;
        tests_are_laid_out(env, v, id, alts@, alts@.len());
        let (u, jumps) = tests(env, v, id, alts@, alts@.len())->0;
        let n = alts@.len();
        assert(count_branches(n, jumps.len()) == n);
        let begun = branches_are_laid_out(env, u, alts@, jumps, n);
        let (w, ends) = branches(env, u, alts@, jumps, n)->0;
        let to = w.code.len() as usize;
        ends_are_joined(w, ends, ends.len(), to);
        assert forall|i: int| 0 <= i < n implies tests_for(
            env,
            id,
            #[trigger] alts@[i],
            t.code,
            v.code.len() + 2 * i,
        ) && t.code[v.code.len() + 2 * i + 1] == Instruction::CJump(
            (begun[i].code.len() - 1) as usize,
        ) && is_branch(env, alts@[i], t.code, begun[i], ends[i]) && t.code[ends[i]]
            == Instruction::Jump(t.code.len() as usize) && ends[i] == if i + 1 < n {
            begun[i + 1].code.len() - 2
        } else {
            t.code.len() - 1
        } by {
            let at = v.code.len() + 2 * i;
            assert(tests_for(env, id, alts@[i], u.code, at));
            assert forall|k: int| 0 <= k < n implies #[trigger] jumps[k] != at by {}
            assert forall|k: int| 0 <= k < n implies #[trigger] ends[k] != at && ends[k] != at
                + 1 by {}
            assert(w.code[at] == u.code[at]);
            assert(t.code[at] == w.code[at]);
            assert(jumps[i] == at + 1);
            assert(w.code[jumps[i]] == Instruction::CJump((begun[i].code.len() - 1) as usize));
            assert(t.code[at + 1] == w.code[at + 1]);
            assert(is_branch(env, alts@[i], w.code, begun[i], ends[i]));
            let first = begun[i].code.len() - 1;
            assert forall|p: int| first <= p < ends[i] implies #[trigger] t.code[p] == w.code[p] by {
                assert forall|k: int| 0 <= k < n implies #[trigger] ends[k] != p by {
                    ends_follow(env, u, alts@, jumps, n, w, ends, begun, k, i);
                }
            }
            if i + 1 < n {
                assert(begun[i + 1].code.len() - 1 == ends[i] + 1);
            }
        }
        begun
    } else {
        Seq::empty()
    }
}

/// A branch lies between the end of the one before it and its own end.
proof fn ends_follow<E: CompilerEnv>(
    env: E,
    start: Emitted,
    alts: Seq<VmAlternative>,
    jumps: Seq<int>,
    n: nat,
    s: Emitted,
    ends: Seq<int>,
    begun: Seq<Emitted>,
    k: int,
    i: int,
)
    requires
        are_laid_out(env, start, alts, jumps, n, s, ends, begun),
        0 <= k < n,
        0 <= i < n,
    ensures
        k < i ==> ends[k] < begun[i].code.len() - 1,
        k >= i ==> ends[k] >= ends[i],
    decreases if k < i {
        i - k
    } else {
        k - i
    },
{
    assert(is_branch(env, alts[i], s.code, begun[i], ends[i]));
    assert(is_branch(env, alts[k], s.code, begun[k], ends[k]));
    if k < i {
        if k < i - 1 {
            ends_follow(env, start, alts, jumps, n, s, ends, begun, k, i - 1);
            assert(is_branch(env, alts[i - 1], s.code, begun[i - 1], ends[i - 1]));
        }
        assert(begun[i].code.len() - 1 == ends[i - 1] + 1);
    } else if k > i {
        ends_follow(env, start, alts, jumps, n, s, ends, begun, k - 1, i);
        assert(is_branch(env, alts[k - 1], s.code, begun[k - 1], ends[k - 1]));
        assert(begun[k].code.len() - 1 == ends[k - 1] + 1);
    }
}

} // verus!
