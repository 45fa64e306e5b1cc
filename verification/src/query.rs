//! Suggestions for a position of a syntax tree, and what is known of what stands there.

use vstd::prelude::*;
use vstd::string::*;
use crate::ast::{Expr, Pattern, SpannedExpr, SpannedPattern};
use crate::completion::{complete_at, completed, matches_view, scope_view, Match, Search, Spot};
use crate::metadata::{entry_of, Metadata};
use crate::pos::BytePos;
use crate::resolve::{remove_aliases, resolved, TypeEnv};
use crate::scope::{is_shown, seen_scope, shown, typed_names, visible, Scope, Suggest};
use crate::suggest::{
    hints, member_hints, pattern_hints, push_hint, suggest_fields_of_type, suggest_members,
    suggest_types, suggest_values, type_hints, value_hints, Hint, KindOrTy, Suggestion,
    SuggestionType,
};
use crate::symbol::{global, last_part, module_part, split_name, Symbol};
use crate::symbol_map::SymbolMap;
use crate::text::{
    begins, comes_before, comes_before_total, comes_before_trans, dot_from, find_dot, is_before,
    same, starts_with, strings_view,
};
use crate::typed::{env_type_of, expr_type, pattern_type, pattern_type_of, tried_type, try_type_of};
use crate::types::model::{AliasTy, Ty};
use crate::types::rows::row_fields;
use crate::types::{ArcType, Type};

verus! {

/// `all` with `hint` behind the names that do not come behind it.
pub open spec fn insert_hint(all: Seq<Hint>, hint: Hint) -> Seq<Hint>
    decreases all.len(),
{
    if all.len() > 0 && comes_before(hint.name, all.last().name) {
        insert_hint(all.drop_last(), hint).push(all.last())
    } else {
        all.push(hint)
    }
}

/// `all` in the order of the names. Where names are equal the order is kept.
pub open spec fn sorted_hints(all: Seq<Hint>) -> Seq<Hint>
    decreases all.len(),
{
    if all.len() == 0 {
        Seq::empty()
    } else {
        insert_hint(sorted_hints(all.drop_last()), all.last())
    }
}

/// `all` without those that have the name of the one before them.
pub open spec fn distinct_hints(all: Seq<Hint>) -> Seq<Hint>
    decreases all.len(),
{
    if all.len() <= 1 {
        all
    } else {
        let before = distinct_hints(all.drop_last());
        if all.last().name == all[all.len() - 2].name {
            before
        } else {
            before.push(all.last())
        }
    }
}

/// No name comes behind the one that follows it.
pub open spec fn in_order(all: Seq<Hint>) -> bool {
    forall|i: int, j: int|
        0 <= i < j < all.len() ==> !comes_before((#[trigger] all[j]).name, (#[trigger] all[i]).name)
}

/// Each name comes before the one that follows it.
pub open spec fn strictly_in_order(all: Seq<Hint>) -> bool {
    forall|i: int, j: int|
        0 <= i < j < all.len() ==> comes_before((#[trigger] all[i]).name, (#[trigger] all[j]).name)
}

proof fn insert_hint_in_order(all: Seq<Hint>, hint: Hint)
    requires
        in_order(all),
    ensures
        in_order(insert_hint(all, hint)),
        insert_hint(all, hint).len() == all.len() + 1,
        forall|i: int|
            0 <= i < insert_hint(all, hint).len() ==> (#[trigger] insert_hint(all, hint)[i])
                == hint || exists|k: int| 0 <= k < all.len() && #[trigger] all[k]
                == insert_hint(all, hint)[i],
    decreases all.len(),
{
    let res = insert_hint(all, hint);
    if all.len() > 0 && comes_before(hint.name, all.last().name) {
        let front = all.drop_last();
        assert(in_order(front));
        insert_hint_in_order(front, hint);
        let inner = insert_hint(front, hint);
        assert forall|i: int, j: int| 0 <= i < j < res.len() implies !comes_before(
            (#[trigger] res[j]).name,
            (#[trigger] res[i]).name,
        ) by {
            if j == res.len() - 1 {
                comes_before_total(hint.name, all.last().name);
                if inner[i] != hint {
                    let k = choose|k: int| 0 <= k < front.len() && #[trigger] front[k] == inner[i];
                    assert(all[k] == front[k]);
                    assert(all[all.len() - 1] == all.last());
                }
            }
        }
        assert forall|i: int| 0 <= i < res.len() implies (#[trigger] res[i]) == hint || exists|k: int|
            0 <= k < all.len() && #[trigger] all[k] == res[i] by {
            if i == res.len() - 1 {
                assert(all[all.len() - 1] == res[i]);
            } else if inner[i] != hint {
                let k = choose|k: int| 0 <= k < front.len() && #[trigger] front[k] == inner[i];
                assert(all[k] == res[i]);
            }
        }
    } else {
        assert forall|i: int, j: int| 0 <= i < j < res.len() implies !comes_before(
            (#[trigger] res[j]).name,
            (#[trigger] res[i]).name,
        ) by {
            if j == res.len() - 1 {
                let last = all.last().name;
                assert(!comes_before(hint.name, last));
                if i < all.len() - 1 {
                    assert(!comes_before(all[all.len() - 1].name, all[i].name));
                    comes_before_total(all[i].name, last);
                    comes_before_total(hint.name, last);
                    if comes_before(hint.name, all[i].name) {
                        if all[i].name == last {
                        } else {
                            comes_before_trans(hint.name, all[i].name, last);
                        }
                    }
                }
            }
        }
        assert forall|i: int| 0 <= i < res.len() implies (#[trigger] res[i]) == hint || exists|k: int|
            0 <= k < all.len() && #[trigger] all[k] == res[i] by {
            if i < all.len() {
                assert(all[i] == res[i]);
            }
        }
    }
}

proof fn sorted_hints_in_order(all: Seq<Hint>)
    ensures
        in_order(sorted_hints(all)),
        sorted_hints(all).len() == all.len(),
    decreases all.len(),
{
    if all.len() > 0 {
        sorted_hints_in_order(all.drop_last());
        insert_hint_in_order(sorted_hints(all.drop_last()), all.last());
    }
}

proof fn distinct_hints_in_order(all: Seq<Hint>)
    requires
        in_order(all),
    ensures
        strictly_in_order(distinct_hints(all)),
        all.len() > 0 ==> distinct_hints(all).len() > 0 && distinct_hints(all).last().name
            == all.last().name,
    decreases all.len(),
{
    if all.len() > 1 {
        let front = all.drop_last();
        assert(in_order(front));
        distinct_hints_in_order(front);
        let before = distinct_hints(front);
        let res = distinct_hints(all);
        assert(front.last() == all[all.len() - 2]);
        if all.last().name != front.last().name {
            assert(!comes_before(all[all.len() - 1].name, all[all.len() - 2].name));
            comes_before_total(front.last().name, all.last().name);
            assert forall|i: int, j: int| 0 <= i < j < res.len() implies comes_before(
                (#[trigger] res[i]).name,
                (#[trigger] res[j]).name,
            ) by {
                if j == res.len() - 1 && i < before.len() - 1 {
                    assert(comes_before(before[i].name, before[before.len() - 1].name));
                    comes_before_trans(before[i].name, before.last().name, all.last().name);
                }
            }
        }
    }
}

/// Suggestions for modules are in the order of their names, and no name is suggested twice.
pub proof fn module_hints_in_order(all: Seq<Hint>)
    ensures
        strictly_in_order(distinct_hints(sorted_hints(all))),
{
    sorted_hints_in_order(all);
    distinct_hints_in_order(sorted_hints(all));
}

/// Sorts the suggestions by their names and drops those that repeat a name.
fn sort_and_dedup(suggestions: Vec<Suggestion>) -> (res: Vec<Suggestion>)
    ensures
        hints(res@) == distinct_hints(sorted_hints(hints(suggestions@))),
{
    let ghost all = hints(suggestions@);
    let mut left = suggestions;
    let mut sorted: Vec<Suggestion> = Vec::new();
    let ghost mut done: int = 0;
    assert(hints(sorted@) =~= sorted_hints(all.take(0)));
    assert(all.skip(0) =~= all);
    while left.len() > 0
        invariant
            0 <= done <= all.len(),
            hints(left@) == all.skip(done),
            hints(sorted@) == sorted_hints(all.take(done)),
        decreases left@.len(),
    {
        let ghost before = left@;
        let next = left.remove(0);
        proof {
            assert(hints(before).len() == all.len() - done);
            assert(hints(before)[0] == before[0]@);
            assert(all.skip(done)[0] == all[done]);
            assert forall|k: int| 0 <= k < left@.len() implies #[trigger] hints(left@)[k]
                == all.skip(done + 1)[k] by {
                assert(left@[k] == before[k + 1]);
                assert(hints(before)[k + 1] == before[k + 1]@);
            }
            assert(hints(left@) =~= all.skip(done + 1));
            assert(all.take(done + 1).drop_last() =~= all.take(done));
            assert(all.take(done + 1).last() == all[done]);
        }
        let ghost so_far = hints(sorted@);
        let mut at: usize = sorted.len();
        assert(so_far.take(at as int) =~= so_far);
        assert(so_far.skip(at as int) =~= Seq::<Hint>::empty());
        assert(insert_hint(so_far, next@) =~= insert_hint(so_far, next@) + Seq::<Hint>::empty());
        while at > 0 && is_before(next.name.as_str(), sorted[at - 1].name.as_str())
            invariant
                at <= sorted@.len(),
                so_far == hints(sorted@),
                insert_hint(so_far, next@) == insert_hint(so_far.take(at as int), next@)
                    + so_far.skip(at as int),
            decreases at,
        {
            proof {
                let front = so_far.take(at as int);
                assert(front.last() == so_far[at - 1]);
                assert(so_far[at - 1] == sorted@[at - 1]@);
                assert(front.drop_last() =~= so_far.take(at - 1));
                assert(insert_hint(so_far.take(at - 1), next@).push(front.last()) + so_far.skip(
                    at as int,
                ) =~= insert_hint(so_far.take(at - 1), next@) + so_far.skip(at - 1));
            }
            at -= 1;
        }
        proof {
            let front = so_far.take(at as int);
            if at > 0 {
                assert(front.last() == sorted@[at - 1]@);
            }
            assert(insert_hint(front, next@) =~= front.push(next@));
        }
        sorted.insert(at, next);
        proof {
            assert(hints(sorted@) =~= so_far.take(at as int).push(next@) + so_far.skip(at as int));
            done = done + 1;
        }
    }
    assert(all.take(done) =~= all);
    dedup(sorted)
}

fn dedup(sorted: Vec<Suggestion>) -> (res: Vec<Suggestion>)
    ensures
        hints(res@) == distinct_hints(hints(sorted@)),
{
    let ghost all = hints(sorted@);
    let mut left = sorted;
    let mut res: Vec<Suggestion> = Vec::new();
    let mut last: Option<String> = None;
    let ghost mut done: int = 0;
    assert(hints(res@) =~= distinct_hints(all.take(0)));
    assert(all.skip(0) =~= all);
    while left.len() > 0
        invariant
            0 <= done <= all.len(),
            hints(left@) == all.skip(done),
            hints(res@) == distinct_hints(all.take(done)),
            match last {
                Some(name) => done > 0 && name@ == all[done - 1].name,
                None => done == 0,
            },
        decreases left@.len(),
    {
        let ghost before = left@;
        let next = left.remove(0);
        let ghost so_far = hints(res@);
        proof {
            assert(hints(before).len() == all.len() - done);
            assert(hints(before)[0] == before[0]@);
            assert(all.skip(done)[0] == all[done]);
            assert forall|k: int| 0 <= k < left@.len() implies #[trigger] hints(left@)[k]
                == all.skip(done + 1)[k] by {
                assert(left@[k] == before[k + 1]);
                assert(hints(before)[k + 1] == before[k + 1]@);
            }
            assert(hints(left@) =~= all.skip(done + 1));
            assert(all.take(done + 1).drop_last() =~= all.take(done));
        }
        let repeated = match &last {
            Some(name) => same(name.as_str(), next.name.as_str()),
            None => false,
        };
        let ghost now = all.take(done + 1);
        assert(done > 0 ==> now[now.len() - 2] == all[done - 1]);
        assert(done == 0 ==> now =~= seq![all[0]]);
        if !repeated {
            last = Some(next.name.clone());
            res.push(next);
            assert(hints(res@) =~= so_far.push(next@));
            assert(hints(res@) =~= distinct_hints(now));
        }
        proof {
            done = done + 1;
        }
    }
    assert(all.take(done) =~= all);
    res
}

/// The next part of the name of `module` behind the module that `path` is in.
pub open spec fn next_part(module: Seq<char>, path: Seq<char>) -> Seq<char> {
    let start = dot_from(module, module_part(path).len() as int, false);
    module.subrange(start, dot_from(module, start, true))
}

/// The first `n` of `modules` that begin with `path`, by their next parts.
pub open spec fn module_hints(
    types: Map<Seq<char>, Ty>,
    modules: Seq<Seq<char>>,
    path: Seq<char>,
    n: nat,
) -> Seq<Hint>
    decreases n,
{
    if n == 0 || n > modules.len() {
        Seq::empty()
    } else {
        let before = module_hints(types, modules, path, (n - 1) as nat);
        let module = modules[n - 1];
        if begins(module, path) {
            before.push(
                Hint {
                    name: next_part(module, path),
                    typ: KindOrTy::Type(
                        if types.dom().contains(module) {
                            types[module]
                        } else {
                            Ty::Hole
                        },
                    ),
                },
            )
        } else {
            before
        }
    }
}

proof fn module_part_bound(name: Seq<char>)
    ensures
        module_part(name).len() <= name.len(),
    decreases name.len(),
{
    if name.len() > 0 && name.last() != '.' {
        module_part_bound(name.drop_last());
    }
}

/// The values whose declared names begin with that of the identifier `expr`.
pub open spec fn ident_hints(scope: Scope, expr: SpannedExpr) -> Seq<Hint> {
    match expr.value {
        Expr::Ident(id) => value_hints(
            visible(scope.stack, last_part(id.name@), scope.stack.len()),
        ),
        _ => Seq::empty(),
    }
}

/// All of the names in scope.
pub open spec fn all_values(bindings: Seq<(Seq<char>, Ty)>) -> Seq<Hint> {
    value_hints(visible(bindings, Seq::empty(), bindings.len()))
}

/// The name of a constructor or a variable that a pattern begins with.
pub open spec fn pattern_prefix(pattern: SpannedPattern) -> Seq<char> {
    match pattern.value {
        Pattern::Constructor(id, _) => id.name@,
        Pattern::Ident(id) => id.name@,
        _ => Seq::empty(),
    }
}

/// Suggestions for the fields of a record pattern.
pub open spec fn record_pattern_hints(
    infos: Map<Seq<char>, AliasTy>,
    pattern: SpannedPattern,
    typ: Option<Ty>,
    prefix: Seq<char>,
) -> Option<Seq<Hint>> {
    match (pattern.value, typ) {
        (Pattern::Record { typ: _, types, fields }, Some(typ)) => match resolved(infos, typ) {
            Some(typ) => Some(pattern_hints(types@, fields@, prefix, typ)),
            None => None,
        },
        _ => None,
    }
}

/// Suggestions for modules.
pub open spec fn import_hints(
    types: Map<Seq<char>, Ty>,
    modules: Seq<Seq<char>>,
    path: Seq<char>,
) -> Seq<Hint> {
    distinct_hints(sorted_hints(module_hints(types, modules, path, modules.len())))
}

/// Suggestions where `spot` was found inside of `context`.
pub open spec fn found_hints(
    infos: Map<Seq<char>, AliasTy>,
    types: Map<Seq<char>, Ty>,
    modules: Seq<Seq<char>>,
    scope: Scope,
    spot: Spot,
    context: Spot,
) -> Option<Seq<Hint>> {
    match spot {
        Spot::Expr(expr) => match expr.value {
            Expr::Ident(id) => if global(id.name@) {
                Some(import_hints(types, modules, id.name@.skip(1)))
            } else {
                Some(ident_hints(scope, expr))
            },
            _ => Some(Seq::empty()),
        },
        Spot::Pattern(pattern) => {
            let constructors = value_hints(
                visible(scope.patterns, pattern_prefix(pattern), scope.patterns.len()),
            );
            if pattern.value is Record {
                match record_pattern_hints(
                    infos,
                    pattern,
                    pattern_type(infos, pattern),
                    Seq::empty(),
                ) {
                    Some(fields) => Some(fields + constructors),
                    None => None,
                }
            } else {
                Some(constructors)
            }
        },
        Spot::Ident(_, ident, _) => match context {
            Spot::Expr(outer) => match outer.value {
                Expr::Projection(value, _, _) => match expr_type(infos, *value) {
                    Some(typ) => match resolved(infos, typ) {
                        Some(typ) => Some(
                            member_hints(row_fields(typ), ident, row_fields(typ).len()),
                        ),
                        None => None,
                    },
                    None => None,
                },
                Expr::Ident(id) => if global(id.name@) {
                    Some(import_hints(types, modules, id.name@.skip(1)))
                } else {
                    Some(Seq::empty())
                },
                _ => Some(Seq::empty()),
            },
            Spot::Pattern(pattern) => match pattern.value {
                Pattern::Record { typ, types: _, fields: _ } => record_pattern_hints(
                    infos,
                    pattern,
                    Some(typ@),
                    last_part(ident),
                ),
                _ => Some(Seq::empty()),
            },
            _ => Some(Seq::empty()),
        },
        Spot::Type(_, ident, _) => Some(
            type_hints(visible(scope.types, last_part(ident), scope.types.len())),
        ),
    }
}

/// Suggestions where nothing was found inside of `context`.
pub open spec fn context_hints(
    infos: Map<Seq<char>, AliasTy>,
    scope: Scope,
    context: Spot,
) -> Option<Seq<Hint>> {
    match context {
        Spot::Expr(_) => Some(all_values(scope.stack)),
        Spot::Ident(..) => Some(all_values(scope.stack)),
        Spot::Type(_, ident, _) => Some(
            type_hints(visible(scope.types, last_part(ident), scope.types.len())),
        ),
        Spot::Pattern(pattern) => if pattern.value is Record {
            record_pattern_hints(infos, pattern, pattern_type(infos, pattern), Seq::empty())
        } else {
            Some(all_values(scope.patterns))
        },
    }
}

/// What is suggested at `pos` in `expr`. Nothing can be said where a type that is looked into has
/// no end, or an expression has no type.
pub open spec fn suggested(
    infos: Map<Seq<char>, AliasTy>,
    types: Map<Seq<char>, Ty>,
    modules: Seq<Seq<char>>,
    expr: SpannedExpr,
    pos: BytePos,
) -> Option<Seq<Hint>> {
    match completed(expr, pos) {
        None => None,
        Some(search) => match search.found {
            None => Some(Seq::empty()),
            Some(found) => match seen_scope(infos, search.seen, search.seen.len()) {
                Some(scope) => if search.enclosing.len() == 0 {
                    None
                } else {
                    match found {
                        Some(spot) => found_hints(
                            infos,
                            types,
                            modules,
                            scope,
                            spot,
                            search.enclosing.last(),
                        ),
                        None => context_hints(infos, scope, search.enclosing.last()),
                    }
                },
                None => None,
            },
        },
    }
}

/// Asks for suggestions.
pub struct SuggestionQuery {
    /// The modules that were found in files.
    pub paths: Vec<String>,
    /// The modules that are known otherwise.
    pub modules: Vec<String>,
}

impl SuggestionQuery {
    /// The names of all modules.
    pub open spec fn all_modules(&self) -> Seq<Seq<char>> {
        strings_view(self.paths@) + strings_view(self.modules@)
    }

    pub fn new() -> (res: SuggestionQuery)
        ensures
            res.all_modules() == Seq::<Seq<char>>::empty(),
    {
        let res = SuggestionQuery { paths: Vec::new(), modules: Vec::new() };
        assert(res.all_modules() =~= Seq::<Seq<char>>::empty());
        res
    }

    fn suggest_modules<E: TypeEnv>(
        env: &E,
        modules: &Vec<String>,
        path: &str,
        suggestions: &mut Vec<Suggestion>,
    )
        ensures
            hints(final(suggestions)@) == hints(old(suggestions)@) + module_hints(
                env.types(),
                strings_view(modules@),
                path@,
                modules@.len(),
            ),
    {
        let ghost all = strings_view(modules@);
        let ghost start = hints(suggestions@);
        let ghost types = env.types();
        let skip: usize = split_name(path).0.unicode_len();
        let mut i: usize = 0;
        while i < modules.len()
            invariant
                i <= modules@.len(),
                all == strings_view(modules@),
                types == env.types(),
                skip == module_part(path@).len(),
                hints(suggestions@) =~= start + module_hints(types, all, path@, i as nat),
            decreases modules@.len() - i,
        {
            let module = modules[i].as_str();
            assert(all[i as int] == module@);
            if starts_with(module, path) {
                proof {
                    module_part_bound(path@);
                }
                let from: usize = find_dot(module, skip, false);
                let to: usize = find_dot(module, from, true);
                let typ = match env.find_type(&Symbol::new(module.to_owned())) {
                    Some(typ) => typ,
                    None => Type::hole(),
                };
                push_hint(
                    suggestions,
                    module.substring_char(from, to),
                    SuggestionType::Type(typ),
                );
            }
            i += 1;
        }
    }

    fn suggest_module_import<E: TypeEnv>(
        &self,
        env: &E,
        path: &str,
        suggestions: Vec<Suggestion>,
    ) -> (res: Vec<Suggestion>)
        requires
            suggestions@.len() == 0,
        ensures
            hints(res@) == import_hints(env.types(), self.all_modules(), path@),
    {
        let mut suggestions = suggestions;
        let ghost (first, second) = (strings_view(self.paths@), strings_view(self.modules@));
        assert(hints(suggestions@) =~= Seq::<Hint>::empty());
        SuggestionQuery::suggest_modules(env, &self.paths, path, &mut suggestions);
        SuggestionQuery::suggest_modules(env, &self.modules, path, &mut suggestions);
        proof {
            module_hints_concat(env.types(), first, second, path@, second.len());
            assert(hints(suggestions@) =~= module_hints(
                env.types(),
                self.all_modules(),
                path@,
                self.all_modules().len(),
            ));
        }
        sort_and_dedup(suggestions)
    }

    /// What is suggested at `pos` in `expr`.
    pub fn suggest<E: TypeEnv>(&self, env: &E, expr: &SpannedExpr, pos: BytePos) -> (res: Vec<
        Suggestion,
    >)
        requires
            suggested(env.infos(), env.types(), self.all_modules(), *expr, pos) is Some,
        ensures
            suggested(env.infos(), env.types(), self.all_modules(), *expr, pos) == Some(
                hints(res@),
            ),
    {
        let found = match complete_at(expr, pos) {
            Ok(found) => found,
            Err(()) => {
                let res: Vec<Suggestion> = Vec::new();
                assert(hints(res@) =~= Seq::<Hint>::empty());
                return res;
            },
        };
        let suggest = Suggest::of_scope(env, &found.in_scope);
        assert(matches_view(found.enclosing_matches@).last() == found.enclosing_matches@.last()@);
        let enclosing = &found.enclosing_matches[found.enclosing_matches.len() - 1];
        match &found.match_ {
            Some(match_) => self.suggest_found(env, &suggest, match_, enclosing),
            None => self.suggest_context(env, &suggest, enclosing),
        }
    }

    fn suggest_record_pattern<E: TypeEnv>(
        env: &E,
        result: &mut Vec<Suggestion>,
        pattern: &SpannedPattern,
        typ: ArcType,
        prefix: &str,
    )
        requires
            record_pattern_hints(env.infos(), *pattern, Some(typ@), prefix@) is Some,
        ensures
            hints(final(result)@) == hints(old(result)@) + record_pattern_hints(
                env.infos(),
                *pattern,
                Some(typ@),
                prefix@,
            )->0,
    {
        if let Pattern::Record { typ: _, types, fields } = &pattern.value {
            let typ = remove_aliases(env, typ);
            suggest_fields_of_type(result, types, fields, prefix, &typ);
        }
    }

    #[verifier::rlimit(30)]
    fn suggest_found<'a, E: TypeEnv>(
        &self,
        env: &E,
        suggest: &Suggest,
        match_: &Match<'a>,
        enclosing: &Match<'a>,
    ) -> (res: Vec<Suggestion>)
        requires
            found_hints(
                env.infos(),
                env.types(),
                self.all_modules(),
                suggest@,
                match_@,
                enclosing@,
            ) is Some,
        ensures
            found_hints(
                env.infos(),
                env.types(),
                self.all_modules(),
                suggest@,
                match_@,
                enclosing@,
            ) == Some(hints(res@)),
    {
        let mut result: Vec<Suggestion> = Vec::new();
        proof {
            reveal_strlit("");
            assert(""@ =~= Seq::<char>::empty());
        }
        assert(hints(result@) =~= Seq::<Hint>::empty());
        match match_ {
            Match::Expr(expr) => match &expr.value {
                Expr::Ident(id) => {
                    if id.name.is_global() {
                        let name = id.name.as_str();
                        let len: usize = name.unicode_len();
                        assert(name@.subrange(1, len as int) =~= name@.skip(1));
                        return self.suggest_module_import(
                            env,
                            name.substring_char(1, len),
                            result,
                        );
                    }
                    suggest_values(&mut result, &suggest.stack, id.name.declared_name());
                    assert(hints(result@) =~= ident_hints(suggest@, **expr));
                },
                _ => {},
            },
            Match::Pattern(pattern) => {
                match &pattern.value {
                    Pattern::Constructor(id, _) => {
                        suggest_values(&mut result, &suggest.patterns, id.name.as_str());
                    },
                    Pattern::Ident(id) => {
                        suggest_values(&mut result, &suggest.patterns, id.name.as_str());
                    },
                    Pattern::Record { .. } => {
                        let typ = pattern_type_of(env, pattern);
                        SuggestionQuery::suggest_record_pattern(env, &mut result, pattern, typ, "");
                        suggest_values(&mut result, &suggest.patterns, "");
                    },
                    _ => {
                        suggest_values(&mut result, &suggest.patterns, "");
                    },
                }
                assert(found_hints(
                    env.infos(),
                    env.types(),
                    self.all_modules(),
                    suggest@,
                    match_@,
                    enclosing@,
                )->0 =~= hints(result@));
            },
            Match::Ident(_, ident, _) => match enclosing {
                Match::Expr(context) => match &context.value {
                    Expr::Projection(value, _, _) => {
                        let typ = remove_aliases(env, env_type_of(env, value));
                        suggest_members(&mut result, &typ, ident.as_str());
                        assert(hints(result@) =~= member_hints(
                            row_fields(typ@),
                            ident@,
                            row_fields(typ@).len(),
                        ));
                    },
                    Expr::Ident(id) => {
                        if id.name.is_global() {
                            let name = id.name.as_str();
                            let len: usize = name.unicode_len();
                            assert(name@.subrange(1, len as int) =~= name@.skip(1));
                            return self.suggest_module_import(
                                env,
                                name.substring_char(1, len),
                                result,
                            );
                        }
                    },
                    _ => {},
                },
                Match::Pattern(pattern) => match &pattern.value {
                    Pattern::Record { typ, types: _, fields: _ } => {
                        SuggestionQuery::suggest_record_pattern(
                            env,
                            &mut result,
                            pattern,
                            typ.clone(),
                            ident.declared_name(),
                        );
                        assert(hints(result@) =~= record_pattern_hints(
                            env.infos(),
                            **pattern,
                            Some(typ@),
                            last_part(ident@),
                        )->0);
                    },
                    _ => {},
                },
                _ => {},
            },
            Match::Type(_, ident, _) => {
                suggest_types(&mut result, &suggest.type_stack, ident.declared_name());
                assert(hints(result@) =~= type_hints(
                    visible(suggest@.types, last_part(ident@), suggest@.types.len()),
                ));
            },
        }
        result
    }

    fn suggest_context<'a, E: TypeEnv>(
        &self,
        env: &E,
        suggest: &Suggest,
        enclosing: &Match<'a>,
    ) -> (res: Vec<Suggestion>)
        requires
            context_hints(env.infos(), suggest@, enclosing@) is Some,
        ensures
            context_hints(env.infos(), suggest@, enclosing@) == Some(hints(res@)),
    {
        let mut result: Vec<Suggestion> = Vec::new();
        proof {
            reveal_strlit("");
            assert(""@ =~= Seq::<char>::empty());
        }
        assert(hints(result@) =~= Seq::<Hint>::empty());
        match enclosing {
            Match::Expr(_) => {
                suggest_values(&mut result, &suggest.stack, "");
            },
            Match::Ident(..) => {
                suggest_values(&mut result, &suggest.stack, "");
            },
            Match::Type(_, ident, _) => {
                suggest_types(&mut result, &suggest.type_stack, ident.declared_name());
            },
            Match::Pattern(pattern) => match &pattern.value {
                Pattern::Record { .. } => {
                    let typ = pattern_type_of(env, pattern);
                    SuggestionQuery::suggest_record_pattern(env, &mut result, pattern, typ, "");
                },
                _ => {
                    suggest_values(&mut result, &suggest.patterns, "");
                },
            },
        }
        assert(hints(result@) =~= context_hints(env.infos(), suggest@, enclosing@)->0);
        result
    }
}

proof fn module_hints_concat(
    types: Map<Seq<char>, Ty>,
    first: Seq<Seq<char>>,
    second: Seq<Seq<char>>,
    path: Seq<char>,
    n: nat,
)
    requires
        n <= second.len(),
    ensures
        module_hints(types, first + second, path, first.len() + n) == module_hints(
            types,
            first,
            path,
            first.len(),
        ) + module_hints(types, second, path, n),
    decreases n,
{
    let all = first + second;
    if n == 0 {
        module_hints_prefix(types, first, second, path, first.len());
        assert(module_hints(types, first, path, first.len()) + Seq::<Hint>::empty()
            =~= module_hints(types, first, path, first.len()));
    } else {
        module_hints_concat(types, first, second, path, (n - 1) as nat);
        assert(all[first.len() + n - 1] == second[n - 1]);
        assert(module_hints(types, all, path, first.len() + n) =~= module_hints(
            types,
            first,
            path,
            first.len(),
        ) + module_hints(types, second, path, n));
    }
}

proof fn module_hints_prefix(
    types: Map<Seq<char>, Ty>,
    first: Seq<Seq<char>>,
    second: Seq<Seq<char>>,
    path: Seq<char>,
    n: nat,
)
    requires
        n <= first.len(),
    ensures
        module_hints(types, first + second, path, n) == module_hints(types, first, path, n),
    decreases n,
{
    if n > 0 {
        module_hints_prefix(types, first, second, path, (n - 1) as nat);
        assert((first + second)[n - 1] == first[n - 1]);
    }
}

/// What is suggested at `pos` in `expr` where no modules are known.
pub fn suggest<E: TypeEnv>(env: &E, expr: &SpannedExpr, pos: BytePos) -> (res: Vec<Suggestion>)
    requires
        suggested(env.infos(), env.types(), Seq::empty(), *expr, pos) is Some,
    ensures
        suggested(env.infos(), env.types(), Seq::empty(), *expr, pos) == Some(hints(res@)),
{
    SuggestionQuery::new().suggest(env, expr, pos)
}

/// The function that is being called, and which of its arguments is being written.
pub struct SignatureHelp {
    pub typ: ArcType,
    pub index: Option<u32>,
}

/// The function that is being called, and which of its arguments is being written.
pub struct Signature {
    pub typ: Ty,
    pub index: Option<u32>,
}

pub open spec fn signature_view(help: Option<SignatureHelp>) -> Option<Signature> {
    match help {
        Some(help) => Some(Signature { typ: help.typ@, index: help.index }),
        None => None,
    }
}

/// The first of `args` from `from` on that does not end before `pos`.
pub open spec fn argument_at(args: Seq<SpannedExpr>, pos: BytePos, from: int) -> int
    decreases args.len() - from,
{
    if from < 0 || from >= args.len() {
        args.len() as int
    } else if pos.0 <= args[from].span.end.0 {
        from
    } else {
        argument_at(args, pos, from + 1)
    }
}

/// Which of `args` is being written at `pos`.
pub open spec fn argument_index(args: Seq<SpannedExpr>, pos: BytePos) -> Option<u32> {
    if args.len() > 0 && pos.0 >= args[0].span.start.0 {
        Some(argument_at(args, pos, 0) as u32)
    } else {
        None
    }
}

/// The innermost call among the first `n` of `enclosing`, as long as there are but calls, names and
/// literals around the position.
pub open spec fn call_around(
    infos: Map<Seq<char>, AliasTy>,
    enclosing: Seq<Spot>,
    pos: BytePos,
    n: nat,
) -> Option<Option<Signature>>
    decreases n,
{
    if n == 0 || n > enclosing.len() {
        Some(None)
    } else {
        match enclosing[n - 1] {
            Spot::Expr(expr) => match expr.value {
                Expr::Ident(_) => call_around(infos, enclosing, pos, (n - 1) as nat),
                Expr::Literal(_) => call_around(infos, enclosing, pos, (n - 1) as nat),
                Expr::App(func, args) => match tried_type(infos, *func) {
                    Some(Some(typ)) => Some(
                        Some(Signature { typ, index: argument_index(args@, pos) }),
                    ),
                    Some(None) => call_around(infos, enclosing, pos, (n - 1) as nat),
                    None => None,
                },
                _ => Some(None),
            },
            _ => Some(None),
        }
    }
}

/// The innermost expression among the first `n` of `enclosing` that has a type.
pub open spec fn typed_around(
    infos: Map<Seq<char>, AliasTy>,
    enclosing: Seq<Spot>,
    pos: BytePos,
    n: nat,
) -> Option<Option<Signature>>
    decreases n,
{
    if n == 0 || n > enclosing.len() {
        Some(None)
    } else {
        match enclosing[n - 1] {
            Spot::Expr(expr) => match tried_type(infos, expr) {
                Some(Some(typ)) => Some(
                    Some(
                        Signature {
                            typ,
                            index: if pos.0 > expr.span.end.0 {
                                Some(0)
                            } else {
                                None
                            },
                        },
                    ),
                ),
                Some(None) => typed_around(infos, enclosing, pos, (n - 1) as nat),
                None => None,
            },
            _ => typed_around(infos, enclosing, pos, (n - 1) as nat),
        }
    }
}

/// What is being called at `pos` in `expr`. Nothing can be said where a type that is looked at has
/// no end.
pub open spec fn signature_at(
    infos: Map<Seq<char>, AliasTy>,
    expr: SpannedExpr,
    pos: BytePos,
) -> Option<Option<Signature>> {
    match completed(expr, pos) {
        None => None,
        Some(search) => if search.found is None {
            Some(None)
        } else {
            let n = search.enclosing.len();
            match call_around(infos, search.enclosing, pos, n) {
                Some(None) => typed_around(infos, search.enclosing, pos, n),
                other => other,
            }
        },
    }
}

fn find_argument(args: &Vec<SpannedExpr>, pos: BytePos) -> (res: Option<u32>)
    ensures
        res == argument_index(args@, pos),
{
    if args.len() == 0 || pos.0 < args[0].span.start.0 {
        return None;
    }
    let mut i: usize = 0;
    while i < args.len()
        invariant
            i <= args@.len(),
            argument_at(args@, pos, 0) == argument_at(args@, pos, i as int),
            args@.len() > 0,
            pos.0 >= args@[0].span.start.0,
        decreases args@.len() - i,
    {
        if pos.0 <= args[i].span.end.0 {
            return Some(i as u32);
        }
        i += 1;
    }
    Some(args.len() as u32)
}

fn find_call<'a, E: TypeEnv>(env: &E, enclosing: &Vec<Match<'a>>, pos: BytePos) -> (res: Option<
    SignatureHelp,
>)
    requires
        call_around(env.infos(), matches_view(enclosing@), pos, enclosing@.len()) is Some,
    ensures
        call_around(env.infos(), matches_view(enclosing@), pos, enclosing@.len()) == Some(
            signature_view(res),
        ),
{
    let ghost all = matches_view(enclosing@);
    let ghost infos = env.infos();
    let ghost whole = call_around(infos, all, pos, all.len());
    let mut i: usize = enclosing.len();
    while i > 0
        invariant
            i <= enclosing@.len(),
            all == matches_view(enclosing@),
            infos == env.infos(),
            whole is Some,
            whole == call_around(infos, all, pos, enclosing@.len()),
            whole == call_around(infos, all, pos, i as nat),
        decreases i,
    {
        i -= 1;
        assert(all[i as int] == enclosing@[i as int]@);
        match &enclosing[i] {
            Match::Expr(expr) => match &expr.value {
                Expr::Ident(_) => {},
                Expr::Literal(_) => {},
                Expr::App(func, args) => {
                    if let Some(typ) = try_type_of(env, func) {
                        return Some(SignatureHelp { typ, index: find_argument(args, pos) });
                    }
                },
                _ => {
                    return None;
                },
            },
            _ => {
                return None;
            },
        }
    }
    None
}

fn find_typed<'a, E: TypeEnv>(env: &E, enclosing: &Vec<Match<'a>>, pos: BytePos) -> (res: Option<
    SignatureHelp,
>)
    requires
        typed_around(env.infos(), matches_view(enclosing@), pos, enclosing@.len()) is Some,
    ensures
        typed_around(env.infos(), matches_view(enclosing@), pos, enclosing@.len()) == Some(
            signature_view(res),
        ),
{
    let ghost all = matches_view(enclosing@);
    let ghost infos = env.infos();
    let ghost whole = typed_around(infos, all, pos, all.len());
    let mut i: usize = enclosing.len();
    while i > 0
        invariant
            i <= enclosing@.len(),
            all == matches_view(enclosing@),
            infos == env.infos(),
            whole is Some,
            whole == typed_around(infos, all, pos, enclosing@.len()),
            whole == typed_around(infos, all, pos, i as nat),
        decreases i,
    {
        i -= 1;
        assert(all[i as int] == enclosing@[i as int]@);
        if let Match::Expr(expr) = &enclosing[i] {
            if let Some(typ) = try_type_of(env, expr) {
                let index = if pos.0 > expr.span.end.0 {
                    Some(0)
                } else {
                    None
                };
                return Some(SignatureHelp { typ, index });
            }
        }
    }
    None
}

/// What is being called at `pos` in `expr`.
pub fn signature_help<E: TypeEnv>(env: &E, expr: &SpannedExpr, pos: BytePos) -> (res: Option<
    SignatureHelp,
>)
    requires
        signature_at(env.infos(), *expr, pos) is Some,
    ensures
        signature_at(env.infos(), *expr, pos) == Some(signature_view(res)),
{
    match complete_at(expr, pos) {
        Ok(found) => match find_call(env, &found.enclosing_matches, pos) {
            Some(help) => Some(help),
            None => find_typed(env, &found.enclosing_matches, pos),
        },
        Err(()) => None,
    }
}

/// What is known of `name`.
pub open spec fn known(env: Map<Seq<char>, Metadata>, name: Seq<char>) -> Option<Metadata> {
    if env.dom().contains(name) {
        Some(env[name])
    } else {
        None
    }
}

/// What is known of `member` inside of what the identifier `owner` names.
pub open spec fn known_member(
    env: Map<Seq<char>, Metadata>,
    owner: SpannedExpr,
    member: Seq<char>,
) -> Option<Metadata> {
    match owner.value {
        Expr::Ident(id) => match known(env, id.name@) {
            Some(metadata) => match entry_of(metadata.module@, member, 0) {
                Some(i) => Some(metadata.module@[i].1),
                None => None,
            },
            None => None,
        },
        _ => None,
    }
}

/// What is known of what was found.
pub open spec fn metadata_at(env: Map<Seq<char>, Metadata>, search: Search) -> Option<Metadata> {
    match search.found {
        Some(Some(Spot::Expr(expr))) => match expr.value {
            Expr::Ident(id) => known(env, id.name@),
            _ => None,
        },
        Some(Some(Spot::Ident(_, id, _))) => match search.enclosing.last() {
            Spot::Expr(context) => match context.value {
                Expr::Projection(value, _, _) => known_member(env, *value, id),
                Expr::Infix(..) => known(env, id),
                _ => None,
            },
            _ => None,
        },
        _ => None,
    }
}

pub open spec fn metadata_view(metadata: Option<&Metadata>) -> Option<Metadata> {
    match metadata {
        Some(metadata) => Some(*metadata),
        None => None,
    }
}

fn member_of<'m>(env: &'m SymbolMap<Metadata>, owner: &SpannedExpr, member: &str) -> (res: Option<
    &'m Metadata,
>)
    ensures
        metadata_view(res) == known_member(env@, *owner, member@),
{
    match &owner.value {
        Expr::Ident(id) => match env.get(&id.name) {
            Some(metadata) => metadata.get(member),
            None => None,
        },
        _ => None,
    }
}

/// What is known of what stands at `pos` in `expr`.
pub fn get_metadata<'m>(env: &'m SymbolMap<Metadata>, expr: &SpannedExpr, pos: BytePos) -> (res:
    Option<&'m Metadata>)
    requires
        completed(*expr, pos) is Some,
        completed(*expr, pos)->0.found is Some ==> completed(*expr, pos)->0.enclosing.len() > 0,
    ensures
        metadata_view(res) == metadata_at(env@, completed(*expr, pos)->0),
{
    match complete_at(expr, pos) {
        Ok(found) => {
            assert(matches_view(found.enclosing_matches@).len()
                == found.enclosing_matches@.len());
            assert(matches_view(found.enclosing_matches@).last()
                == found.enclosing_matches@.last()@);
            let enclosing = &found.enclosing_matches[found.enclosing_matches.len() - 1];
            match &found.match_ {
                Some(Match::Expr(expr)) => match &expr.value {
                    Expr::Ident(id) => env.get(&id.name),
                    _ => None,
                },
                Some(Match::Ident(_, id, _)) => match enclosing {
                    Match::Expr(context) => match &context.value {
                        Expr::Projection(value, _, _) => member_of(env, value, id.as_str()),
                        Expr::Infix(..) => env.get(*id),
                        _ => None,
                    },
                    _ => None,
                },
                _ => None,
            }
        },
        Err(()) => None,
    }
}

/// The first of the `n` visible `bindings` that was declared as `name`, and whose declared name
/// begins with `prefix`.
pub open spec fn named_binding(
    bindings: Seq<(Seq<char>, Ty)>,
    prefix: Seq<char>,
    name: Seq<char>,
    from: int,
) -> Option<Seq<char>>
    decreases bindings.len() - from,
{
    if from < 0 || from >= bindings.len() {
        None
    } else if shown(bindings, prefix, from) && last_part(bindings[from].0) == name {
        Some(bindings[from].0)
    } else {
        named_binding(bindings, prefix, name, from + 1)
    }
}

/// What is known of the suggestion `name` for what was found.
pub open spec fn suggested_metadata(
    env: Map<Seq<char>, Metadata>,
    scope: Scope,
    search: Search,
    name: Seq<char>,
) -> Option<Metadata> {
    let binding = match search.found {
        Some(Some(Spot::Expr(expr))) => match expr.value {
            Expr::Ident(id) => named_binding(scope.stack, last_part(id.name@), name, 0),
            _ => None,
        },
        Some(None) => match search.enclosing.last() {
            Spot::Expr(_) => named_binding(scope.stack, Seq::empty(), name, 0),
            Spot::Ident(..) => named_binding(scope.stack, Seq::empty(), name, 0),
            _ => None,
        },
        _ => None,
    };
    match search.found {
        Some(Some(Spot::Ident(..))) => match search.enclosing.last() {
            Spot::Expr(context) => match context.value {
                Expr::Projection(value, _, _) => known_member(env, *value, name),
                _ => None,
            },
            _ => None,
        },
        _ => match binding {
            Some(binding) => known(env, binding),
            None => None,
        },
    }
}

fn find_binding<'m>(
    env: &'m SymbolMap<Metadata>,
    bindings: &Vec<(Symbol, ArcType)>,
    prefix: &str,
    name: &str,
) -> (res: Option<&'m Metadata>)
    ensures
        metadata_view(res) == match named_binding(typed_names(bindings@), prefix@, name@, 0) {
            Some(binding) => known(env@, binding),
            None => None,
        },
{
    let ghost all = typed_names(bindings@);
    let mut i: usize = 0;
    while i < bindings.len()
        invariant
            i <= bindings@.len(),
            all == typed_names(bindings@),
            named_binding(all, prefix@, name@, 0) == named_binding(all, prefix@, name@, i as int),
        decreases bindings@.len() - i,
    {
        assert(all[i as int].0 == bindings@[i as int].0@);
        if is_shown(bindings, prefix, i) && same(bindings[i].0.declared_name(), name) {
            return env.get(&bindings[i].0);
        }
        i += 1;
    }
    None
}

/// What is known of the suggestion `name` at `pos` in `expr`.
pub fn suggest_metadata<'m, E: TypeEnv>(
    env: &'m SymbolMap<Metadata>,
    type_env: &E,
    expr: &SpannedExpr,
    pos: BytePos,
    name: &str,
) -> (res: Option<&'m Metadata>)
    requires
        completed(*expr, pos) is Some,
        ({
            let search = completed(*expr, pos)->0;
            search.found is Some ==> search.enclosing.len() > 0 && seen_scope(
                type_env.infos(),
                search.seen,
                search.seen.len(),
            ) is Some
        }),
    ensures
        ({
            let search = completed(*expr, pos)->0;
            metadata_view(res) == if search.found is Some {
                suggested_metadata(
                    env@,
                    seen_scope(type_env.infos(), search.seen, search.seen.len())->0,
                    search,
                    name@,
                )
            } else {
                None
            }
        }),
{
    proof {
        reveal_strlit("");
        assert(""@ =~= Seq::<char>::empty());
    }
    match complete_at(expr, pos) {
        Ok(found) => {
            assert(scope_view(found.in_scope@).len() == found.in_scope@.len());
            let suggest = Suggest::of_scope(type_env, &found.in_scope);
            assert(matches_view(found.enclosing_matches@).len()
                == found.enclosing_matches@.len());
            assert(matches_view(found.enclosing_matches@).last()
                == found.enclosing_matches@.last()@);
            let enclosing = &found.enclosing_matches[found.enclosing_matches.len() - 1];
            match &found.match_ {
                Some(Match::Expr(expr)) => match &expr.value {
                    Expr::Ident(id) => find_binding(
                        env,
                        &suggest.stack,
                        id.name.declared_name(),
                        name,
                    ),
                    _ => None,
                },
                Some(Match::Ident(..)) => match enclosing {
                    Match::Expr(context) => match &context.value {
                        Expr::Projection(value, _, _) => member_of(env, value, name),
                        _ => None,
                    },
                    _ => None,
                },
                Some(_) => None,
                None => match enclosing {
                    Match::Expr(_) => find_binding(env, &suggest.stack, "", name),
                    Match::Ident(..) => find_binding(env, &suggest.stack, "", name),
                    _ => None,
                },
            }
        },
        Err(()) => None,
    }
}

} // verus!
