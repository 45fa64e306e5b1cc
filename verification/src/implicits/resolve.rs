//! The resolution of an implicit argument together with the arguments that it demands in turn.

use std::rc::Rc;
use vstd::prelude::*;
use crate::ast::{Expr, SpannedExpr, TypedIdent};
use crate::implicits::error::Error;
use crate::implicits::partition::{path_view, shared_view};
use crate::implicits::search::{
    apply_implicits, chosen, dotted, find_candidate, find_implicit, first_difference, first_fit,
    path_expr, reaches, smallers, through, trouble, Demand, Size, Trouble,
};
use crate::implicits::store::{types_in, ImplicitBinding};
use crate::pos::Span;
use crate::symbol::Symbol;
use crate::types::model::Ty;

verus! {

/// How the candidates for a demand turned out.
pub struct Trial {
    pub demand: Demand,
    pub candidates: Vec<Rc<ImplicitBinding>>,
    /// Which of the candidates have a type that the demand asks for.
    pub fits: Vec<bool>,
    /// How what the first candidate that fits demands compares, in both directions, to what it
    /// demanded when it was last taken.
    pub sizes: Vec<(Size, Size)>,
    /// The trials for what that candidate demands.
    pub args: Vec<Trial>,
}

/// Each candidate was tried and has a path.
pub open spec fn is_tried(trial: Trial) -> bool
    decreases trial, 0nat,
{
    &&& trial.fits@.len() == trial.candidates@.len()
    &&& forall|i: int|
        0 <= i < trial.candidates@.len() ==> (#[trigger] trial.candidates@[i]).path@.len() > 0
    &&& all_tried(trial.args@, trial.args@.len())
}

pub open spec fn all_tried(trials: Seq<Trial>, n: nat) -> bool
    decreases trials, n,
{
    if n == 0 || n > trials.len() {
        true
    } else {
        all_tried(trials, (n - 1) as nat) && is_tried(trials[n - 1])
    }
}

/// The names along `path`.
pub open spec fn names_along(path: Seq<(Seq<char>, Ty)>) -> Seq<Seq<char>> {
    path.map_values(|id: (Seq<char>, Ty)| id.0)
}

/// The paths that were taken, each with the number of arguments that were demanded then.
pub type Visited = Seq<(Seq<Seq<char>>, nat)>;

/// The number of arguments that were demanded when the path with `names` was last taken.
pub open spec fn last_taken(visited: Visited, names: Seq<Seq<char>>) -> Option<nat>
    decreases visited.len(),
{
    if visited.len() == 0 {
        None
    } else if visited.last().0 == names {
        Some(visited.last().1)
    } else {
        last_taken(visited.drop_last(), names)
    }
}

/// The candidate that fits first was taken before, and what it demands has not become smaller.
pub open spec fn is_looping(visited: Visited, trial: Trial) -> bool {
    match first_fit(trial.fits@, 0) {
        None => false,
        Some(i) => match last_taken(
            visited,
            names_along(shared_view(trial.candidates@)[i].path),
        ) {
            None => false,
            Some(demanded) => demanded != 0 && first_difference(trial.sizes@, trial.sizes@.len())
                != Size::Smaller,
        },
    }
}

/// The value at the end of a path, applied to the arguments that it demands.
pub struct Found {
    pub path: Seq<(Seq<char>, Ty)>,
    pub args: Seq<Found>,
}

/// Why an argument is not found, and the types that it was required for.
pub struct Failure {
    pub trouble: Trouble,
    pub reason: Seq<Ty>,
}

/// A failure inside of `path`. A loop goes through it too.
pub open spec fn failed_through(failure: Failure, path: Seq<(Seq<char>, Ty)>) -> Failure {
    match failure.trouble {
        Trouble::Loop(paths) => Failure {
            trouble: Trouble::Loop(paths.push(dotted(path, path.len()))),
            ..failure
        },
        _ => failure,
    }
}

/// What is found for the demand that `trial` is about when `visited` were taken to come to it.
pub open spec fn found(visited: Visited, trial: Trial) -> Result<Found, Failure>
    decreases trial, 0nat,
{
    let bindings = shared_view(trial.candidates@);
    match chosen(
        trial.demand.constraint@,
        bindings,
        trial.fits@,
        is_looping(visited, trial),
    ) {
        Err(trouble) => Err(Failure { trouble, reason: types_in(trial.demand.reason) }),
        Ok(i) => {
            let path = bindings[i].path;
            match all_found(
                visited.push((names_along(path), trial.args@.len())),
                trial.args@,
                trial.args@.len(),
            ) {
                Err(failure) => Err(failed_through(failure, path)),
                Ok(args) => Ok(Found { path, args }),
            }
        },
    }
}

/// What is found for the first `n` of the demands that `trials` are about. What is taken for one of
/// them is forgotten for the next.
pub open spec fn all_found(visited: Visited, trials: Seq<Trial>, n: nat) -> Result<
    Seq<Found>,
    Failure,
>
    decreases trials, n,
{
    if n == 0 || n > trials.len() {
        Ok(Seq::empty())
    } else {
        match all_found(visited, trials, (n - 1) as nat) {
            Err(failure) => Err(failure),
            Ok(before) => match found(visited, trials[n - 1]) {
                Err(failure) => Err(failure),
                Ok(arg) => Ok(before.push(arg)),
            },
        }
    }
}

/// `expr` is the value at the end of the path, applied to the arguments if there are any.
pub open spec fn stands_for(expr: SpannedExpr, span: Span, found: Found) -> bool
    decreases found, 0nat,
{
    if found.args.len() == 0 {
        reaches(expr, span, found.path, found.path.len())
    } else {
        expr.span == span && (expr.value matches Expr::App(func, args) && reaches(
            *func,
            span,
            found.path,
            found.path.len(),
        ) && all_stand_for(args@, span, found.args, found.args.len()) && args@.len()
            == found.args.len())
    }
}

pub open spec fn all_stand_for(
    exprs: Seq<SpannedExpr>,
    span: Span,
    found: Seq<Found>,
    n: nat,
) -> bool
    decreases found, n,
{
    if n == 0 || n > found.len() {
        true
    } else {
        all_stand_for(exprs, span, found, (n - 1) as nat) && stands_for(
            exprs[n - 1],
            span,
            found[n - 1],
        )
    }
}

/// As many arguments are found as are demanded, if all are.
pub proof fn found_for_each(visited: Visited, trials: Seq<Trial>, n: nat)
    requires
        n <= trials.len(),
    ensures
        all_found(visited, trials, n) matches Ok(found) ==> found.len() == n,
    decreases n,
{
    if n > 0 {
        found_for_each(visited, trials, (n - 1) as nat);
    }
}

/// A candidate that was taken before is not taken again unless what it demands has become smaller:
/// the search comes to an end with an error.
pub proof fn loops_are_refused(visited: Visited, trial: Trial)
    requires
        is_looping(visited, trial),
    ensures
        found(visited, trial) matches Err(failure) && failure.trouble is Loop,
{
}

/// The arguments that were found do not depend on what was found for those beside them: each is
/// what is found for it alone.
pub proof fn found_alone(visited: Visited, trials: Seq<Trial>, n: nat, i: int)
    requires
        0 <= i < n <= trials.len(),
        all_found(visited, trials, n) is Ok,
    ensures
        found(visited, trials[i]) == Ok::<Found, Failure>(all_found(visited, trials, n)->Ok_0[i]),
    decreases n,
{
    found_for_each(visited, trials, (n - 1) as nat);
    if i < n - 1 {
        found_alone(visited, trials, (n - 1) as nat, i);
    }
}

proof fn tried_at(trials: Seq<Trial>, n: nat, i: int)
    requires
        all_tried(trials, n),
        0 <= i < n <= trials.len(),
    ensures
        is_tried(trials[i]),
    decreases n,
{
    if i < n - 1 {
        tried_at(trials, (n - 1) as nat, i);
    }
}

proof fn failed_before(visited: Visited, trials: Seq<Trial>, n: nat, m: nat)
    requires
        n <= m <= trials.len(),
        all_found(visited, trials, n) is Err,
    ensures
        all_found(visited, trials, m) == all_found(visited, trials, n),
    decreases m,
{
    if n < m {
        failed_before(visited, trials, n, (m - 1) as nat);
    }
}

proof fn stand_for_pushed(
    exprs: Seq<SpannedExpr>,
    more: Seq<SpannedExpr>,
    span: Span,
    found: Seq<Found>,
    other: Seq<Found>,
    n: nat,
)
    requires
        n <= found.len() <= other.len(),
        n <= exprs.len() <= more.len(),
        forall|i: int| 0 <= i < n ==> exprs[i] == more[i],
        forall|i: int| 0 <= i < n ==> found[i] == other[i],
        all_stand_for(exprs, span, found, n),
    ensures
        all_stand_for(more, span, other, n),
    decreases n,
{
    if n > 0 {
        stand_for_pushed(exprs, more, span, found, other, (n - 1) as nat);
        assert(exprs[n - 1] == more[n - 1]);
        assert(found[n - 1] == other[n - 1]);
    }
}

/// A path that was taken, and the number of arguments that were demanded then.
struct Taken {
    names: Vec<Symbol>,
    demanded: usize,
}

impl View for Taken {
    type V = (Seq<Seq<char>>, nat);

    closed spec fn view(&self) -> (Seq<Seq<char>>, nat) {
        (crate::types::symbols_view(self.names@), self.demanded as nat)
    }
}

spec fn visited_view(visited: Seq<Taken>) -> Visited {
    visited.map_values(|taken: Taken| taken@)
}

fn is_along(names: &Vec<Symbol>, path: &Vec<TypedIdent>) -> (res: bool)
    ensures
        res == (crate::types::symbols_view(names@) == names_along(path_view(path@))),
{
    let ghost l = crate::types::symbols_view(names@);
    let ghost r = names_along(path_view(path@));
    assert(l.len() == names@.len());
    assert(r.len() == path@.len());
    if names.len() != path.len() {
        return false;
    }
    let mut i: usize = 0;
    while i < names.len()
        invariant
            i <= names@.len() == path@.len(),
            l == crate::types::symbols_view(names@),
            r == names_along(path_view(path@)),
            forall|j: int| 0 <= j < i ==> #[trigger] l[j] == r[j],
        decreases names@.len() - i,
    {
        assert(l[i as int] == names@[i as int]@);
        assert(r[i as int] == path@[i as int].name@);
        if names[i] != path[i].name {
            return false;
        }
        i += 1;
    }
    assert(l =~= r);
    true
}

fn names_of(path: &Vec<TypedIdent>) -> (res: Vec<Symbol>)
    ensures
        crate::types::symbols_view(res@) == names_along(path_view(path@)),
{
    let ghost all = names_along(path_view(path@));
    let mut res: Vec<Symbol> = Vec::new();
    let mut i: usize = 0;
    while i < path.len()
        invariant
            i <= path@.len(),
            all == names_along(path_view(path@)),
            res@.len() == i,
            forall|j: int| 0 <= j < i ==> (#[trigger] res@[j])@ == all[j],
        decreases path@.len() - i,
    {
        res.push(path[i].name.clone());
        i += 1;
    }
    assert(crate::types::symbols_view(res@) =~= all);
    res
}

fn find_taken(visited: &Vec<Taken>, path: &Vec<TypedIdent>) -> (res: Option<usize>)
    ensures
        match res {
            Some(demanded) => last_taken(
                visited_view(visited@),
                names_along(path_view(path@)),
            ) == Some(demanded as nat),
            None => last_taken(visited_view(visited@), names_along(path_view(path@))) is None,
        },
{
    let ghost all = visited_view(visited@);
    let ghost names = names_along(path_view(path@));
    let mut i: usize = visited.len();
    assert(all.take(i as int) =~= all);
    while i > 0
        invariant
            i <= visited@.len(),
            all == visited_view(visited@),
            names == names_along(path_view(path@)),
            last_taken(all, names) == last_taken(all.take(i as int), names),
        decreases i,
    {
        assert(all.take(i as int).drop_last() =~= all.take(i - 1));
        assert(all.take(i as int).last() == visited@[i - 1]@);
        i -= 1;
        if is_along(&visited[i].names, path) {
            return Some(visited[i].demanded);
        }
    }
    None
}

spec fn is_found(
    res: Result<SpannedExpr, Error>,
    span: Span,
    outcome: Result<Found, Failure>,
) -> bool {
    match (res, outcome) {
        (Ok(expr), Ok(found)) => stands_for(expr, span, found),
        (Err(error), Err(failure)) => trouble(error.kind) == failure.trouble && types_in(
            error.reason,
        ) == failure.reason,
        _ => false,
    }
}

fn does_loop(visited: &Vec<Taken>, trial: &Trial) -> (res: bool)
    requires
        is_tried(*trial),
    ensures
        res == is_looping(visited_view(visited@), *trial),
{
    match find_candidate(&trial.fits) {
        None => false,
        Some(i) => {
            let candidate = &trial.candidates[i];
            assert(shared_view(trial.candidates@)[i as int] == candidate@);
            assert(candidate@.path == path_view(candidate.path@));
            match find_taken(visited, &candidate.path) {
                None => false,
                Some(demanded) => !smallers(&trial.sizes, demanded),
            }
        },
    }
}

fn resolve_demand(visited: &mut Vec<Taken>, span: Span, trial: &Trial) -> (res: Result<
    SpannedExpr,
    Error,
>)
    requires
        is_tried(*trial),
    ensures
        visited_view(final(visited)@) == visited_view(old(visited)@),
        is_found(res, span, found(visited_view(old(visited)@), *trial)),
    decreases *trial, 1nat,
{
    let ghost before = visited_view(visited@);
    let looping = does_loop(visited, trial);
    match find_implicit(&trial.demand, &trial.candidates, &trial.fits, looping) {
        Err(error) => Err(error),
        Ok(i) => {
            let candidate = &trial.candidates[i];
            assert(shared_view(trial.candidates@)[i as int] == candidate@);
            assert(candidate@.path == path_view(candidate.path@));
            let count: usize = visited.len();
            let ghost taken = visited@;
            visited.push(Taken { names: names_of(&candidate.path), demanded: trial.args.len() });
            assert(visited_view(visited@) =~= before.push(visited@.last()@));
            let ghost inner = visited_view(visited@);
            let args = resolve_arguments(visited, span, &trial.args);
            assert(visited_view(visited@).len() == visited@.len());
            assert(before.len() == count);
            visited.truncate(count);
            assert(visited_view(visited@) =~= before) by {
                assert(visited_view(visited@) =~= inner.take(count as int));
            }
            match args {
                Err(error) => Err(through(error, &candidate.path)),
                Ok(args) => {
                    let func = path_expr(span, &candidate.path);
                    proof {
                        found_for_each(inner, trial.args@, trial.args@.len());
                    }
                    match apply_implicits(span, func, trial.args.len(), args) {
                        Some(expr) => Ok(expr),
                        // There are as many arguments as are demanded
                        None => Ok(path_expr(span, &candidate.path)),
                    }
                },
            }
        },
    }
}

fn resolve_arguments(visited: &mut Vec<Taken>, span: Span, trials: &Vec<Trial>) -> (res: Result<
    Vec<SpannedExpr>,
    Error,
>)
    requires
        all_tried(trials@, trials@.len()),
    ensures
        visited_view(final(visited)@) == visited_view(old(visited)@),
        match (res, all_found(visited_view(old(visited)@), trials@, trials@.len())) {
            (Ok(exprs), Ok(found)) => exprs@.len() == found.len() && all_stand_for(
                exprs@,
                span,
                found,
                found.len(),
            ),
            (Err(error), Err(failure)) => trouble(error.kind) == failure.trouble && types_in(
                error.reason,
            ) == failure.reason,
            _ => false,
        },
    decreases trials@, trials@.len(),
{
    let ghost start = visited_view(visited@);
    let ghost all = trials@;
    let mut res: Vec<SpannedExpr> = Vec::new();
    let mut i: usize = 0;
    while i < trials.len()
        invariant
            i <= trials@.len(),
            all == trials@,
            all_tried(all, all.len()),
            start == visited_view(old(visited)@),
            visited_view(visited@) == start,
            all_found(start, all, i as nat) matches Ok(found) && found.len() == i && res@.len() == i
                && all_stand_for(res@, span, found, i as nat),
        decreases trials@.len() - i,
    {
        assert(decreases_to!(all => all[i as int]));
        let ghost found = all_found(start, all, i as nat)->Ok_0;
        let ghost before = res@;
        proof {
            tried_at(all, all.len(), i as int);
        }
        match resolve_demand(visited, span, &trials[i]) {
            Ok(expr) => {
                res.push(expr);
                proof {
                    let more = all_found(start, all, i as nat + 1)->Ok_0;
                    stand_for_pushed(before, res@, span, found, more, i as nat);
                }
            },
            Err(error) => {
                proof {
                    failed_before(start, all, i as nat + 1, all.len());
                }
                return Err(error);
            },
        }
        i += 1;
    }
    Ok(res)
}

/// The expression that stands for an implicit argument at `span`, given how the candidates for it
/// and for what they demand in turn turned out.
pub fn resolve_implicit(span: Span, trial: &Trial) -> (res: Result<SpannedExpr, Error>)
    requires
        is_tried(*trial),
    ensures
        match (res, found(Seq::empty(), *trial)) {
            (Ok(expr), Ok(found)) => stands_for(expr, span, found),
            (Err(error), Err(failure)) => trouble(error.kind) == failure.trouble && types_in(
                error.reason,
            ) == failure.reason,
            _ => false,
        },
{
    let mut visited: Vec<Taken> = Vec::new();
    assert(visited_view(visited@) =~= Seq::empty());
    resolve_demand(&mut visited, span, trial)
}

} // verus!
