//! Resolution of aliases.

use vstd::prelude::*;
use crate::symbol::Symbol;
use crate::symbol_map::{contains_symbol, names, SymbolMap};
use crate::types::apply::applied;
use crate::types::model::{AliasTy, Ty};
use crate::types::query::{alias_name, applied_alias_of, applied_args};
use crate::types::walk::{alias_type, map_view, opt_view};
use crate::types::{symbols_view, AliasRef, ArcType, Type};

verus! {

/// Trait for values which contains typed values which can be refered by name
pub trait TypeEnv {
    /// The types of the values, by name.
    spec fn types(&self) -> Map<Seq<char>, Ty>;

    /// The aliases, by name.
    spec fn infos(&self) -> Map<Seq<char>, AliasTy>;

    /// Returns the type of the value bound at `id`
    fn find_type(&self, id: &Symbol) -> (res: Option<ArcType>)
        ensures
            match res {
                Some(typ) => self.types().dom().contains(id@) && self.types()[id@] == typ@,
                None => !self.types().dom().contains(id@),
            },
    ;

    /// Returns information about the type `id`
    fn find_type_info(&self, id: &Symbol) -> (res: Option<AliasRef>)
        ensures
            match res {
                Some(alias) => self.infos().dom().contains(id@) && self.infos()[id@] == alias@,
                None => !self.infos().dom().contains(id@),
            },
    ;
}

/// An environment in which nothing is bound.
pub struct EmptyEnv;

impl TypeEnv for EmptyEnv {
    open spec fn types(&self) -> Map<Seq<char>, Ty> {
        Map::empty()
    }

    open spec fn infos(&self) -> Map<Seq<char>, AliasTy> {
        Map::empty()
    }

    fn find_type(&self, id: &Symbol) -> (res: Option<ArcType>) {
        None
    }

    fn find_type_info(&self, id: &Symbol) -> (res: Option<AliasRef>) {
        None
    }
}

/// An environment that is a table of types and aliases.
pub struct TypeTable {
    pub values: SymbolMap<ArcType>,
    pub aliases: SymbolMap<AliasRef>,
}

impl TypeTable {
    pub fn new() -> (res: TypeTable)
        ensures
            res.values@ == Map::<Seq<char>, ArcType>::empty(),
            res.aliases@ == Map::<Seq<char>, AliasRef>::empty(),
    {
        TypeTable { values: SymbolMap::new(), aliases: SymbolMap::new() }
    }
}

impl TypeEnv for TypeTable {
    open spec fn types(&self) -> Map<Seq<char>, Ty> {
        map_view(self.values@)
    }

    open spec fn infos(&self) -> Map<Seq<char>, AliasTy> {
        self.aliases@.map_values(|alias: AliasRef| alias@)
    }

    fn find_type(&self, id: &Symbol) -> (res: Option<ArcType>) {
        match self.values.get(id) {
            Some(typ) => Some(typ.clone()),
            None => None,
        }
    }

    fn find_type_info(&self, id: &Symbol) -> (res: Option<AliasRef>) {
        match self.aliases.get(id) {
            Some(alias) => Some(alias.clone()),
            None => None,
        }
    }
}

/// Why an alias could not be removed.
pub enum Error {
    UndefinedType(Symbol),
    SelfRecursiveAlias(Symbol),
}

impl Error {
    /// The message for the error.
    pub fn message(&self) -> (res: String)
        ensures
            res@ == match self {
                Error::UndefinedType(id) => "Type `"@ + id@ + "` does not exist."@,
                Error::SelfRecursiveAlias(id) => "Tried to remove self recursive alias `"@ + id@
                    + "`."@,
            },
    {
        match self {
            Error::UndefinedType(id) => {
                let start = crate::text::join("Type `", id.as_str());
                crate::text::join(start.as_str(), "` does not exist.")
            },
            Error::SelfRecursiveAlias(id) => {
                let start = crate::text::join("Tried to remove self recursive alias `", id.as_str());
                crate::text::join(start.as_str(), "`.")
            },
        }
    }
}

/// The alias that `t` applies, where the aliases in `infos` are known by their names.
pub open spec fn alias_at(infos: Map<Seq<char>, AliasTy>, t: Ty) -> Option<AliasTy> {
    match (alias_name(t), applied_alias_of(t)) {
        (Some(_), Some(alias)) => Some(alias),
        (Some(id), None) => if infos.dom().contains(id) {
            Some(infos[id])
        } else {
            None
        },
        _ => None,
    }
}

/// What `t`, which applies `alias`, stands for.
pub open spec fn unaliased(alias: AliasTy, t: Ty) -> Option<Ty> {
    applied(alias_type(alias), alias.data().params, applied_args(t), Map::empty())
}

/// What `t` stands for if it applies an alias that can be expanded. An opaque type exists only as
/// the alias itself.
pub open spec fn expanded(infos: Map<Seq<char>, AliasTy>, t: Ty) -> Option<Ty> {
    match alias_at(infos, t) {
        Some(alias) => if alias.data().typ is Opaque {
            None
        } else {
            unaliased(alias, t)
        },
        None => None,
    }
}

/// `t` is expanded `n` times, and then `res` is no alias that can be expanded.
pub open spec fn expands_to(infos: Map<Seq<char>, AliasTy>, t: Ty, n: nat, res: Ty) -> bool
    decreases n,
{
    match expanded(infos, t) {
        None => n == 0 && res == t,
        Some(next) => n > 0 && expands_to(infos, next, (n - 1) as nat, res),
    }
}

/// What `t` expands to is determined by `t`.
pub proof fn expands_to_one(infos: Map<Seq<char>, AliasTy>, t: Ty, n: nat, r: Ty, m: nat, s: Ty)
    requires
        expands_to(infos, t, n, r),
        expands_to(infos, t, m, s),
    ensures
        n == m,
        r == s,
    decreases n,
{
    match expanded(infos, t) {
        None => {},
        Some(next) => {
            expands_to_one(infos, next, (n - 1) as nat, r, (m - 1) as nat, s);
        },
    }
}

/// The alias that `typ` applies.
pub fn peek_alias<E: TypeEnv>(env: &E, typ: &ArcType) -> (res: Result<Option<AliasRef>, Error>)
    ensures
        match res {
            Ok(Some(alias)) => alias_at(env.infos(), typ@) == Some(alias@),
            Ok(None) => alias_at(env.infos(), typ@) is None,
            Err(_) => false,
        },
{
    let maybe_alias = typ.applied_alias();
    match typ.alias_ident() {
        Some(id) => match maybe_alias {
            Some(alias) => Ok(Some(alias.clone())),
            None => Ok(env.find_type_info(id)),
        },
        None => Ok(None),
    }
}

/// Expands `typ`, which applies `alias`.
fn apply_alias(alias: &AliasRef, typ: &ArcType) -> (res: Option<ArcType>)
    ensures
        opt_view(res) == unaliased(alias@, typ@),
{
    let mut named_variables: SymbolMap<ArcType> = SymbolMap::new();
    assert(map_view(named_variables@) =~= Map::<Seq<char>, Ty>::empty());
    let args = typ.unapplied_args();
    alias.typ().apply_args(alias.data().params(), &args, &mut named_variables)
}

/// Expand `typ` if it is an alias that can be expanded and return the expanded type.
/// Returns `None` if the type is not an alias or the alias could not be expanded.
pub fn remove_alias<E: TypeEnv>(env: &E, typ: &ArcType) -> (res: Result<Option<ArcType>, Error>)
    ensures
        res matches Ok(typ2) && opt_view(typ2) == expanded(env.infos(), typ@),
{
    match peek_alias(env, typ) {
        Ok(Some(alias)) => {
            if is_opaque(alias.data().unresolved_type()) {
                Ok(None)
            } else {
                Ok(apply_alias(&alias, typ))
            }
        },
        Ok(None) => Ok(None),
        Err(err) => Err(err),
    }
}

fn is_opaque(typ: &ArcType) -> (res: bool)
    ensures
        res == (typ@ is Opaque),
{
    match typ.as_type() {
        Type::Opaque => true,
        _ => false,
    }
}

/// Removes type aliases from `typ` until it is an actual type
pub fn remove_aliases<E: TypeEnv>(env: &E, typ: ArcType) -> (res: ArcType)
    requires
        resolved(env.infos(), typ@) is Some,
    ensures
        resolved(env.infos(), typ@) == Some(res@),
{
    let ghost (steps, end): (nat, Ty) = choose|n: nat, r: Ty| expands_to(env.infos(), typ@, n, r);
    let ghost mut left: nat = steps;
    let mut current = typ;
    proof {
        resolved_is(env.infos(), typ@, steps, end);
    }
    loop
        invariant
            expands_to(env.infos(), current@, left, end),
            resolved(env.infos(), typ@) == Some(end),
        decreases left,
    {
        match remove_alias(env, &current) {
            Ok(Some(new)) => {
                current = new;
                proof {
                    left = (left - 1) as nat;
                }
            },
            _ => {
                return current;
            },
        }
    }
}

/// Removes type aliases from `typ` until it is an actual type
pub fn remove_aliases_cow<E: TypeEnv>(env: &E, typ: &ArcType) -> (res: ArcType)
    requires
        resolved(env.infos(), typ@) is Some,
    ensures
        resolved(env.infos(), typ@) == Some(res@),
{
    remove_aliases(env, typ.clone())
}

/// What `t` expands to, if its expansion comes to an end.
pub open spec fn resolved(infos: Map<Seq<char>, AliasTy>, t: Ty) -> Option<Ty> {
    if exists|n: nat, r: Ty| expands_to(infos, t, n, r) {
        Some((choose|n: nat, r: Ty| expands_to(infos, t, n, r)).1)
    } else {
        None
    }
}

/// What `t` expands to is what it is resolved to.
pub proof fn resolved_is(infos: Map<Seq<char>, AliasTy>, t: Ty, n: nat, r: Ty)
    requires
        expands_to(infos, t, n, r),
    ensures
        resolved(infos, t) == Some(r),
{
    let (m, s) = choose|n: nat, r: Ty| expands_to(infos, t, n, r);
    expands_to_one(infos, t, n, r, m, s);
}

/// `canonical` may answer `answer` for `alias`.
pub open spec fn answers<F: Fn(&AliasRef) -> bool>(
    canonical: F,
    alias: AliasTy,
    answer: bool,
) -> bool {
    exists|a: &AliasRef| a@ == alias && #[trigger] call_ensures(canonical, (a,), answer)
}

/// What `canonical` may answer for which aliases.
pub open spec fn verdicts<F: Fn(
    &AliasRef,
) -> bool>(canonical: F) -> spec_fn(AliasTy, bool) -> bool {
    |alias: AliasTy, answer: bool| answers(canonical, alias, answer)
}

/// `res` is what `t` is after `n` expansions, none of them of an alias for which `canonical`
/// answered `true`, and `res` applies such an alias or cannot be expanded.
pub open spec fn canonical_to(
    infos: Map<Seq<char>, AliasTy>,
    t: Ty,
    canonical: spec_fn(AliasTy, bool) -> bool,
    n: nat,
    res: Ty,
) -> bool
    decreases n,
{
    match alias_at(infos, t) {
        None => n == 0 && res == t,
        Some(alias) => {
            ||| canonical(alias, true) && n == 0 && res == t
            ||| canonical(alias, false) && match unaliased(alias, t) {
                None => n == 0 && res == t,
                Some(next) => n > 0 && canonical_to(infos, next, canonical, (n - 1) as nat, res),
            }
        },
    }
}

/// After at most `n` expansions `t` cannot be expanded, or `canonical` answers `true`.
pub open spec fn canonical_within(
    infos: Map<Seq<char>, AliasTy>,
    t: Ty,
    canonical: spec_fn(AliasTy, bool) -> bool,
    n: nat,
) -> bool
    decreases n,
{
    match alias_at(infos, t) {
        None => true,
        Some(alias) => match unaliased(alias, t) {
            None => true,
            Some(next) => canonical(alias, false) ==> n > 0 && canonical_within(
                infos,
                next,
                canonical,
                (n - 1) as nat,
            ),
        },
    }
}

/// Resolves aliases until `canonical` returns `true` for an alias in which case it returns the
/// type that directly contains that alias
pub fn canonical_alias<E: TypeEnv, F: Fn(&AliasRef) -> bool>(
    env: &E,
    typ: &ArcType,
    canonical: F,
) -> (res: ArcType)
    requires
        forall|alias: &AliasRef| #[trigger] call_requires(canonical, (alias,)),
        exists|n: nat| canonical_within(env.infos(), typ@, verdicts(canonical), n),
    ensures
        exists|n: nat| canonical_to(env.infos(), typ@, verdicts(canonical), n, res@),
{
    let ghost steps: nat = choose|n: nat| canonical_within(env.infos(), typ@, verdicts(canonical), n);
    let ghost mut left: nat = steps;
    let ghost mut done: nat = 0;
    let mut current = typ.clone();
    loop
        invariant
            forall|alias: &AliasRef| #[trigger] call_requires(canonical, (alias,)),
            canonical_within(env.infos(), current@, verdicts(canonical), left),
            forall|n: nat, r: Ty| #[trigger]
                canonical_to(env.infos(), current@, verdicts(canonical), n, r) ==> canonical_to(
                    env.infos(),
                    typ@,
                    verdicts(canonical),
                    n + done,
                    r,
                ),
        decreases left,
    {
        match peek_alias(env, &current) {
            Ok(Some(alias)) => {
                let stop = canonical(&alias);
                assert(answers(canonical, alias@, stop));
                assert(verdicts(canonical)(alias@, stop));
                if stop {
                    assert(canonical_to(env.infos(), current@, verdicts(canonical), 0, current@));
                    return current;
                }
                match apply_alias(&alias, &current) {
                    Some(new) => {
                        let ghost before = current@;
                        current = new;
                        proof {
                            assert forall|n: nat, r: Ty| #[trigger]
                                canonical_to(
                                    env.infos(),
                                    current@,
                                    verdicts(canonical),
                                    n,
                                    r,
                                ) implies canonical_to(
                                env.infos(),
                                typ@,
                                verdicts(canonical),
                                n + (done + 1),
                                r,
                            ) by {
                                assert(canonical_to(env.infos(), before, verdicts(canonical), n + 1, r));
                            }
                            left = (left - 1) as nat;
                            done = done + 1;
                        }
                    },
                    None => {
                        assert(canonical_to(env.infos(), current@, verdicts(canonical), 0, current@));
                        return current;
                    },
                }
            },
            _ => {
                assert(canonical_to(env.infos(), current@, verdicts(canonical), 0, current@));
                return current;
            },
        }
    }
}

/// Removes aliases, and finds out when an alias is expanded inside its own expansion.
pub struct AliasRemover {
    reduced_aliases: Vec<Symbol>,
}

impl View for AliasRemover {
    type V = Seq<Seq<char>>;

    /// The names of the aliases that were removed.
    closed spec fn view(&self) -> Seq<Seq<char>> {
        symbols_view(self.reduced_aliases@)
    }
}

/// What comes of one step of removing aliases from `t`.
pub enum Removed {
    /// `t` is an actual type.
    Done,
    /// `t` applies an alias that stands for the type. The name of the alias comes first.
    Expanded(Seq<char>, Ty),
    /// `t` applies an alias that cannot be expanded.
    Stuck(Seq<char>),
    /// `t` applies an alias that was removed before.
    Recursive(Seq<char>),
}

/// What comes of removing an alias from `t` after the aliases `reduced` have been removed.
pub open spec fn removed(
    infos: Map<Seq<char>, AliasTy>,
    reduced: Seq<Seq<char>>,
    t: Ty,
) -> Removed {
    match alias_at(infos, t) {
        None => Removed::Done,
        Some(alias) => {
            let name = alias.data().name;
            if reduced.contains(name) {
                Removed::Recursive(name)
            } else {
                match expanded(infos, t) {
                    Some(next) => Removed::Expanded(name, next),
                    None => Removed::Stuck(name),
                }
            }
        },
    }
}

/// After `n` expansions of `t`, of the aliases that `reduced` then holds beside those it held
/// before, `last` is what is left of `t`.
pub open spec fn removes_to(
    infos: Map<Seq<char>, AliasTy>,
    reduced: Seq<Seq<char>>,
    t: Ty,
    n: nat,
    reduced_after: Seq<Seq<char>>,
    last: Ty,
) -> bool
    decreases n,
{
    if n == 0 {
        reduced_after == reduced && last == t
    } else {
        match removed(infos, reduced, t) {
            Removed::Expanded(name, next) => removes_to(
                infos,
                reduced.push(name),
                next,
                (n - 1) as nat,
                reduced_after,
                last,
            ),
            _ => false,
        }
    }
}

/// `t` cannot be expanded further, and `now` holds the aliases that were removed.
pub open spec fn ends(
    infos: Map<Seq<char>, AliasTy>,
    reduced: Seq<Seq<char>>,
    t: Ty,
    now: Seq<Seq<char>>,
) -> bool {
    match removed(infos, reduced, t) {
        Removed::Done => now == reduced,
        Removed::Stuck(name) => now == reduced.push(name),
        _ => false,
    }
}

/// One more expansion.
proof fn removes_to_step(
    infos: Map<Seq<char>, AliasTy>,
    reduced: Seq<Seq<char>>,
    t: Ty,
    n: nat,
    after: Seq<Seq<char>>,
    last: Ty,
)
    requires
        removes_to(infos, reduced, t, n, after, last),
        removed(infos, after, last) is Expanded,
    ensures
        removes_to(
            infos,
            reduced,
            t,
            n + 1,
            after.push(removed(infos, after, last)->Expanded_0),
            removed(infos, after, last)->Expanded_1,
        ),
    decreases n,
{
    if n == 0 {
        let name = removed(infos, after, last)->Expanded_0;
        let next = removed(infos, after, last)->Expanded_1;
        assert(removes_to(infos, reduced.push(name), next, 0, after.push(name), next));
    } else {
        let name = removed(infos, reduced, t)->Expanded_0;
        let next = removed(infos, reduced, t)->Expanded_1;
        removes_to_step(infos, reduced.push(name), next, (n - 1) as nat, after, last);
    }
}

/// The expansions of `t` come to an end after `n` of them.
pub open spec fn settles(
    infos: Map<Seq<char>, AliasTy>,
    reduced: Seq<Seq<char>>,
    t: Ty,
    n: nat,
) -> bool
    decreases n,
{
    match removed(infos, reduced, t) {
        Removed::Expanded(name, next) => n > 0 && settles(
            infos,
            reduced.push(name),
            next,
            (n - 1) as nat,
        ),
        _ => n == 0,
    }
}

/// No alias is removed twice.
pub proof fn removed_aliases_differ(
    infos: Map<Seq<char>, AliasTy>,
    reduced: Seq<Seq<char>>,
    t: Ty,
    n: nat,
    after: Seq<Seq<char>>,
    last: Ty,
)
    requires
        removes_to(infos, reduced, t, n, after, last),
        reduced.no_duplicates(),
    ensures
        after.no_duplicates(),
        after.len() == reduced.len() + n,
        after.take(reduced.len() as int) == reduced,
    decreases n,
{
    if n == 0 {
        assert(after.take(reduced.len() as int) =~= reduced);
    } else {
        let name = removed(infos, reduced, t)->Expanded_0;
        let next = removed(infos, reduced, t)->Expanded_1;
        assert(reduced.push(name).no_duplicates());
        removed_aliases_differ(infos, reduced.push(name), next, (n - 1) as nat, after, last);
        assert(after.take(reduced.len() as int) =~= after.take(reduced.len() as int + 1).take(
            reduced.len() as int,
        ));
        assert(reduced.push(name).take(reduced.len() as int) =~= reduced);
    }
}

/// Removing aliases comes to an end where all the aliases that are met have their names in a finite
/// set: that of the aliases in the type and the environment.
pub proof fn removing_aliases_settles(
    infos: Map<Seq<char>, AliasTy>,
    reduced: Seq<Seq<char>>,
    t: Ty,
    known: Set<Seq<char>>,
)
    requires
        known.finite(),
        reduced.no_duplicates(),
        reduced.to_set().subset_of(known),
        forall|n: nat, after: Seq<Seq<char>>, last: Ty| #[trigger]
            removes_to(infos, reduced, t, n, after, last) ==> match alias_at(infos, last) {
                Some(alias) => known.contains(alias.data().name),
                None => true,
            },
    ensures
        exists|n: nat| settles(infos, reduced, t, n),
    decreases known.len() - reduced.len(),
{
    reduced.unique_seq_to_set();
    vstd::set_lib::lemma_len_subset(reduced.to_set(), known);
    match removed(infos, reduced, t) {
        Removed::Expanded(name, next) => {
            assert(removes_to(infos, reduced, t, 0, reduced, t));
            let more = reduced.push(name);
            assert(known.contains(name));
            assert(more.no_duplicates());
            assert(more.to_set().subset_of(known)) by {
                assert forall|x: Seq<char>| more.to_set().contains(x) implies known.contains(x) by {
                    let i = choose|i: int| 0 <= i < more.len() && more[i] == x;
                    if i < reduced.len() {
                        assert(reduced.to_set().contains(reduced[i]));
                    }
                }
            }
            more.unique_seq_to_set();
            vstd::set_lib::lemma_len_subset(more.to_set(), known);
            assert forall|n: nat, after: Seq<Seq<char>>, last: Ty| #[trigger]
                removes_to(infos, more, next, n, after, last) implies match alias_at(infos, last) {
                Some(alias) => known.contains(alias.data().name),
                None => true,
            } by {
                assert(removes_to(infos, reduced, t, n + 1, after, last));
            }
            removing_aliases_settles(infos, more, next, known);
            let n = choose|n: nat| settles(infos, more, next, n);
            assert(settles(infos, reduced, t, n + 1));
        },
        _ => {
            assert(settles(infos, reduced, t, 0));
        },
    }
}

impl AliasRemover {
    pub fn new() -> (res: AliasRemover)
        ensures
            res@ == Seq::<Seq<char>>::empty(),
    {
        let res = AliasRemover { reduced_aliases: Vec::new() };
        assert(res@ =~= Seq::<Seq<char>>::empty());
        res
    }

    /// How many aliases were removed.
    pub fn len(&self) -> (res: usize)
        ensures
            res == self@.len(),
    {
        self.reduced_aliases.len()
    }

    /// Whether no alias was removed.
    pub fn is_empty(&self) -> (res: bool)
        ensures
            res == (self@.len() == 0),
    {
        self.reduced_aliases.len() == 0
    }

    /// Forgets all but the first `to` aliases that were removed.
    pub fn reset(&mut self, to: usize)
        ensures
            final(self)@ == if to <= old(self)@.len() {
                old(self)@.take(to as int)
            } else {
                old(self)@
            },
    {
        self.reduced_aliases.truncate(to);
        assert(to <= old(self)@.len() ==> self@ =~= old(self)@.take(to as int));
    }

    pub fn contains(&self, name: &Symbol) -> (res: bool)
        ensures
            res == self@.contains(name@),
    {
        let res = contains_symbol(&self.reduced_aliases, name);
        proof {
            if res {
                let i = choose|i: int|
                    0 <= i < self.reduced_aliases@.len() && (#[trigger] self.reduced_aliases@[i])@
                        == name@;
                assert(self@[i] == name@);
            } else if self@.contains(name@) {
                let i = choose|i: int| 0 <= i < self@.len() && self@[i] == name@;
                assert(self.reduced_aliases@[i]@ == name@);
            }
        }
        res
    }

    pub fn push(&mut self, name: &Symbol)
        ensures
            final(self)@ == old(self)@.push(name@),
    {
        self.reduced_aliases.push(name.clone());
        assert(self@ =~= old(self)@.push(name@));
    }

    /// Expands `typ` if it applies an alias. An alias that was removed before is an error.
    pub fn remove_alias<E: TypeEnv>(&mut self, env: &E, typ: &ArcType) -> (res: Result<
        Option<ArcType>,
        Error,
    >)
        ensures
            match removed(env.infos(), old(self)@, typ@) {
                Removed::Done => res == Ok::<Option<ArcType>, Error>(None) && final(self)@ == old(
                    self,
                )@,
                Removed::Expanded(name, next) => final(self)@ == old(self)@.push(name)
                    && (res matches Ok(Some(new)) && new@ == next),
                Removed::Stuck(name) => res == Ok::<Option<ArcType>, Error>(None) && final(self)@
                    == old(self)@.push(name),
                Removed::Recursive(name) => final(self)@ == old(self)@ && (res matches Err(
                    Error::SelfRecursiveAlias(id),
                ) && id@ == name),
            },
    {
        match peek_alias(env, typ) {
            Ok(Some(alias)) => {
                let data = alias.data();
                if self.contains(data.name()) {
                    return Err(Error::SelfRecursiveAlias(data.name().clone()));
                }
                self.push(data.name());
                // Opaque types should only exist as the alias itself
                if is_opaque(data.unresolved_type()) {
                    return Ok(None);
                }
                Ok(apply_alias(&alias, typ))
            },
            Ok(None) => Ok(None),
            Err(err) => Err(err),
        }
    }

    /// Expands `typ` until it is an actual type. An alias that is met again is an error.
    #[verifier::rlimit(30)]
    pub fn remove_aliases<E: TypeEnv>(&mut self, env: &E, typ: ArcType) -> (res: Result<
        ArcType,
        Error,
    >)
        requires
            exists|n: nat| settles(env.infos(), old(self)@, typ@, n),
        ensures
            match res {
                Ok(end) => exists|n: nat, after: Seq<Seq<char>>|
                    {
                        &&& #[trigger] removes_to(
                            env.infos(),
                            old(self)@,
                            typ@,
                            n,
                            after,
                            end@,
                        )
                        &&& ends(env.infos(), after, end@, final(self)@)
                    },
                Err(err) => exists|n: nat, last: Ty|
                    {
                        &&& #[trigger] removes_to(
                            env.infos(),
                            old(self)@,
                            typ@,
                            n,
                            final(self)@,
                            last,
                        )
                        &&& err matches Error::SelfRecursiveAlias(id) && removed(
                            env.infos(),
                            final(self)@,
                            last,
                        ) == Removed::Recursive(id@)
                    },
            },
    {
        let ghost start = self@;
        let ghost first = typ@;
        let ghost mut left: nat = choose|n: nat| settles(env.infos(), self@, typ@, n);
        let ghost mut done: nat = 0;
        let mut left_over = typ;
        loop
            invariant
                start == old(self)@,
                first == typ@,
                settles(env.infos(), self@, left_over@, left),
                removes_to(env.infos(), start, first, done, self@, left_over@),
            decreases left,
        {
            let ghost before = self@;
            let ghost current = left_over@;
            match self.remove_alias(env, &left_over) {
                Ok(Some(new)) => {
                    left_over = new;
                    proof {
                        removes_to_step(env.infos(), start, first, done, before, current);
                        left = (left - 1) as nat;
                        done = done + 1;
                    }
                },
                Ok(None) => {
                    assert(ends(env.infos(), before, left_over@, self@));
                    assert(removes_to(env.infos(), start, first, done, before, left_over@));
                    proof {
                        let end = left_over;
                        assert(exists|n: nat, after: Seq<Seq<char>>|
                            {
                                &&& #[trigger] removes_to(
                                    env.infos(),
                                    old(self)@,
                                    typ@,
                                    n,
                                    after,
                                    end@,
                                )
                                &&& ends(env.infos(), after, end@, self@)
                            });
                    }
                    let res: Result<ArcType, Error> = Ok(left_over);
                    assert(res->Ok_0@ == current);
                    return res;
                },
                Err(err) => {
                    assert(self@ == before);
                    assert(removes_to(env.infos(), start, first, done, self@, current));
                    return Err(err);
                },
            }
        }
    }
}

/// What comes of the search for a canonical alias.
pub enum Canonical {
    /// The type that applies it, or that cannot be expanded any more
    Found(Ty),
    /// An alias that was removed before
    Recursive(Seq<char>),
}

/// `outcome` is what `n` expansions of `t` lead to, none of them of an alias for which `canonical`
/// answered `true`, and `after` holds the aliases that were met beside those in `reduced`.
pub open spec fn canonical_removed(
    infos: Map<Seq<char>, AliasTy>,
    reduced: Seq<Seq<char>>,
    t: Ty,
    canonical: spec_fn(AliasTy, bool) -> bool,
    n: nat,
    after: Seq<Seq<char>>,
    outcome: Canonical,
) -> bool
    decreases n,
{
    match alias_at(infos, t) {
        None => n == 0 && after == reduced && outcome == Canonical::Found(t),
        Some(alias) => {
            let name = alias.data().name;
            let more = reduced.push(name);
            if reduced.contains(name) {
                n == 0 && after == reduced && outcome == Canonical::Recursive(name)
            } else {
                ||| canonical(alias, true) && n == 0 && after == more && outcome
                    == Canonical::Found(t)
                ||| canonical(alias, false) && match unaliased(alias, t) {
                    None => n == 0 && after == more && outcome == Canonical::Found(t),
                    Some(next) => n > 0 && canonical_removed(
                        infos,
                        more,
                        next,
                        canonical,
                        (n - 1) as nat,
                        after,
                        outcome,
                    ),
                }
            }
        },
    }
}

/// After at most `n` expansions `t` cannot be expanded, `canonical` answers `true`, or an alias is met
/// again.
pub open spec fn canonical_removed_within(
    infos: Map<Seq<char>, AliasTy>,
    reduced: Seq<Seq<char>>,
    t: Ty,
    canonical: spec_fn(AliasTy, bool) -> bool,
    n: nat,
) -> bool
    decreases n,
{
    match alias_at(infos, t) {
        None => true,
        Some(alias) => if reduced.contains(alias.data().name) {
            true
        } else {
            match unaliased(alias, t) {
                None => true,
                Some(next) => canonical(alias, false) ==> n > 0
                    && canonical_removed_within(
                    infos,
                    reduced.push(alias.data().name),
                    next,
                    canonical,
                    (n - 1) as nat,
                ),
            }
        },
    }
}

pub open spec fn canonical_view(res: Result<ArcType, Error>) -> Canonical {
    match res {
        Ok(typ) => Canonical::Found(typ@),
        Err(Error::SelfRecursiveAlias(id)) => Canonical::Recursive(id@),
        Err(Error::UndefinedType(id)) => Canonical::Recursive(id@),
    }
}

impl AliasRemover {
    /// Resolves aliases until `canonical` returns `true` for an alias in which case it returns the
    /// type that directly contains that alias. An alias that is met again is an error.
    #[verifier::rlimit(30)]
    pub fn canonical_alias<E: TypeEnv, F: Fn(&AliasRef) -> bool>(
        &mut self,
        env: &E,
        typ: &ArcType,
        canonical: F,
    ) -> (res: Result<ArcType, Error>)
        requires
            forall|alias: &AliasRef| #[trigger] call_requires(canonical, (alias,)),
            exists|n: nat|
                canonical_removed_within(env.infos(), old(self)@, typ@, verdicts(canonical), n),
        ensures
            res matches Err(error) ==> error is SelfRecursiveAlias,
            exists|n: nat|
                canonical_removed(
                    env.infos(),
                    old(self)@,
                    typ@,
                    verdicts(canonical),
                    n,
                    final(self)@,
                    canonical_view(res),
                ),
    {
        let ghost mut left: nat = choose|n: nat|
            canonical_removed_within(env.infos(), self@, typ@, verdicts(canonical), n);
        let ghost mut done: nat = 0;
        let mut current = typ.clone();
        loop
            invariant
                forall|alias: &AliasRef| #[trigger] call_requires(canonical, (alias,)),
                canonical_removed_within(env.infos(), self@, current@, verdicts(canonical), left),
                forall|n: nat, after: Seq<Seq<char>>, outcome: Canonical| #[trigger]
                    canonical_removed(
                        env.infos(),
                        self@,
                        current@,
                        verdicts(canonical),
                        n,
                        after,
                        outcome,
                    ) ==> canonical_removed(
                        env.infos(),
                        old(self)@,
                        typ@,
                        verdicts(canonical),
                        n + done,
                        after,
                        outcome,
                    ),
            decreases left,
        {
            let ghost infos = env.infos();
            let ghost reduced = self@;
            let ghost t = current@;
            match peek_alias(env, &current) {
                Ok(Some(alias)) => {
                    let name = alias.data().name().clone();
                    if self.contains(&name) {
                        assert(canonical_removed(
                            infos,
                            reduced,
                            t,
                            verdicts(canonical),
                            0,
                            reduced,
                            Canonical::Recursive(name@),
                        ));
                        return Err(Error::SelfRecursiveAlias(name));
                    }
                    self.push(&name);
                    let stop = canonical(&alias);
                    assert(answers(canonical, alias@, stop));
                assert(verdicts(canonical)(alias@, stop));
                    if stop {
                        assert(canonical_removed(
                            infos,
                            reduced,
                            t,
                            verdicts(canonical),
                            0,
                            self@,
                            Canonical::Found(t),
                        ));
                        return Ok(current);
                    }
                    match apply_alias(&alias, &current) {
                        Some(new) => {
                            current = new;
                            proof {
                                assert forall|
                                    n: nat,
                                    after: Seq<Seq<char>>,
                                    outcome: Canonical,
                                | #[trigger]
                                    canonical_removed(
                                        infos,
                                        self@,
                                        current@,
                                        verdicts(canonical),
                                        n,
                                        after,
                                        outcome,
                                    ) implies canonical_removed(
                                    infos,
                                    old(self)@,
                                    typ@,
                                    verdicts(canonical),
                                    n + (done + 1),
                                    after,
                                    outcome,
                                ) by {
                                    assert(canonical_removed(
                                        infos,
                                        reduced,
                                        t,
                                        verdicts(canonical),
                                        n + 1,
                                        after,
                                        outcome,
                                    ));
                                }
                                left = (left - 1) as nat;
                                done = done + 1;
                            }
                        },
                        None => {
                            assert(canonical_removed(
                                infos,
                                reduced,
                                t,
                                verdicts(canonical),
                                0,
                                self@,
                                Canonical::Found(t),
                            ));
                            return Ok(current);
                        },
                    }
                },
                _ => {
                    assert(canonical_removed(
                        infos,
                        reduced,
                        t,
                        verdicts(canonical),
                        0,
                        reduced,
                        Canonical::Found(t),
                    ));
                    return Ok(current);
                },
            }
        }
    }
}

/// Trait which is a `TypeEnv` which also provides access to the type representation of some
/// primitive types
pub trait PrimitiveEnv: TypeEnv {
    /// The type of truth values.
    spec fn bool_type(&self) -> Ty;

    fn get_bool(&self) -> (res: &ArcType)
        ensures
            res@ == self.bool_type(),
    ;
}

/// What is known where types are checked.
pub trait TypecheckEnv: PrimitiveEnv + crate::metadata::MetadataEnv {

}

impl<T: PrimitiveEnv + crate::metadata::MetadataEnv> TypecheckEnv for T {

}

/// How a record is looked for by its fields.
pub enum RecordSelector {
    /// Selects a record which exactly has the fields
    Exact,
    /// Selects a record which has all the passed fields (in any order)
    Subset,
}

impl RecordSelector {
    /// Returns `true` if the names match according to the selector
    pub fn matches(&self, record: &Vec<Symbol>, needle: &Vec<Symbol>) -> (res: bool)
        ensures
            res == match self {
                RecordSelector::Exact => symbols_view(record@) == symbols_view(needle@),
                RecordSelector::Subset => forall|i: int|
                    0 <= i < needle@.len() ==> names(record@).contains((#[trigger] needle@[i])@),
            },
    {
        match self {
            RecordSelector::Exact => crate::types::same::same_symbols(record, needle),
            RecordSelector::Subset => {
                let mut i: usize = 0;
                while i < needle.len()
                    invariant
                        i <= needle@.len(),
                        self is Subset,
                        forall|j: int|
                            0 <= j < i ==> names(record@).contains((#[trigger] needle@[j])@),
                    decreases needle@.len() - i,
                {
                    if !contains_symbol(record, &needle[i]) {
                        assert(!names(record@).contains(needle@[i as int]@));
                        return false;
                    }
                    i += 1;
                }
                true
            },
        }
    }
}

} // verus!
