//! What is in scope at a position.

use vstd::prelude::*;
use vstd::string::*;
use crate::ast::{Pattern, PatternField, PatternTypeField, SpannedPattern};
use crate::completion::{field_type, scope_view, InScope, Seen};
use crate::kind::{ArcKind, Kind, KindCache};
use crate::resolve::{remove_aliases, resolved, TypeEnv};
use crate::symbol::{last_part, Symbol};
use crate::text::{begins, starts_with};
use crate::typed::{pattern_type, pattern_type_of};
use crate::types::model::{AliasDataTy, AliasTy, FieldTy, Ty};
use crate::types::query::kind_of;
use crate::types::rows::{
    remove_forall, row_fields, row_iter, type_field_iter, type_fields, without_forall,
};
use crate::types::{AliasData, ArcType, Type};

verus! {

/// The values, types and constructors in scope. A later binding of a name hides the earlier ones.
pub struct Scope {
    pub stack: Seq<(Seq<char>, Ty)>,
    pub types: Seq<(Seq<char>, Kind)>,
    pub patterns: Seq<(Seq<char>, Ty)>,
}

impl Scope {
    pub open spec fn empty() -> Scope {
        Scope { stack: Seq::empty(), types: Seq::empty(), patterns: Seq::empty() }
    }

    pub open spec fn bind(self, name: Seq<char>, typ: Ty) -> Scope {
        Scope { stack: self.stack.push((name, typ)), ..self }
    }

    pub open spec fn bind_type(self, name: Seq<char>, kind: Kind) -> Scope {
        Scope { types: self.types.push((name, kind)), ..self }
    }

    /// The first `n` of the constructors `fields`, which are values and patterns.
    pub open spec fn bind_constructors(self, fields: Seq<FieldTy>, n: nat) -> Scope
        decreases n,
    {
        if n == 0 || n > fields.len() {
            self
        } else {
            let s = self.bind_constructors(fields, (n - 1) as nat);
            let pair = (fields[n - 1].name, fields[n - 1].typ);
            Scope { stack: s.stack.push(pair), patterns: s.patterns.push(pair), types: s.types }
        }
    }

    /// An alias, and its constructors if it stands for a variant.
    pub open spec fn bind_alias(self, data: AliasDataTy) -> Scope {
        let s = match without_forall(data.typ) {
            Ty::Variant(row) => self.bind_constructors(row_fields(*row), row_fields(*row).len()),
            _ => self,
        };
        s.bind_type(data.name, kind_of(data.typ, 0))
    }
}

/// The position of the first of `fields` that is named `name`, from `from` on.
pub open spec fn field_at(fields: Seq<FieldTy>, name: Seq<char>, from: int) -> Option<int>
    decreases fields.len() - from,
{
    if from < 0 || from >= fields.len() {
        None
    } else if fields[from].name == name {
        Some(from)
    } else {
        field_at(fields, name, from + 1)
    }
}

/// The associated types of `typ` that the first `n` of `types` name.
pub open spec fn types_scope(s: Scope, types: Seq<PatternTypeField>, n: nat, typ: Ty) -> Scope
    decreases n,
{
    if n == 0 || n > types.len() {
        s
    } else {
        let before = types_scope(s, types, (n - 1) as nat, typ);
        match field_at(type_fields(typ), types[n - 1].name.value@, 0) {
            Some(i) => match type_fields(typ)[i].typ {
                Ty::Alias(alias) => before.bind_alias(alias.data()),
                _ => before,
            },
            None => before,
        }
    }
}

/// The fields of `typ` that the first `n` of `fields` bind to their own names.
pub open spec fn fields_scope(s: Scope, fields: Seq<PatternField>, n: nat, typ: Ty) -> Scope
    decreases n,
{
    if n == 0 || n > fields.len() {
        s
    } else {
        let before = fields_scope(s, fields, (n - 1) as nat, typ);
        match fields[n - 1].value {
            Some(_) => before,
            None => {
                let name = fields[n - 1].name.value@;
                // If there is no matching field in the type, default to a type hole so that the
                // user at least gets completion on the name
                before.bind(name, field_type(row_fields(typ), name, 0, Ty::Hole))
            },
        }
    }
}

/// What `pattern` binds.
pub open spec fn pattern_scope(
    infos: Map<Seq<char>, AliasTy>,
    s: Scope,
    pattern: SpannedPattern,
) -> Option<Scope>
    decreases pattern, 1nat,
{
    match pattern.value {
        Pattern::As(id, inner) => match pattern_type(infos, *inner) {
            Some(typ) => pattern_scope(infos, s.bind(id@, typ), *inner),
            None => None,
        },
        Pattern::Ident(id) => Some(s.bind(id.name@, id.typ@)),
        Pattern::Record { typ, types, fields } => match resolved(infos, typ@) {
            Some(typ) => Some(
                fields_scope(
                    types_scope(s, types@, types@.len(), typ),
                    fields@,
                    fields@.len(),
                    typ,
                ),
            ),
            None => None,
        },
        Pattern::Tuple { typ: _, elems } => patterns_scope(infos, s, elems@, elems@.len()),
        Pattern::Constructor(_, args) => patterns_scope(infos, s, args@, args@.len()),
        Pattern::Error => Some(s),
    }
}

pub open spec fn patterns_scope(
    infos: Map<Seq<char>, AliasTy>,
    s: Scope,
    patterns: Seq<SpannedPattern>,
    n: nat,
) -> Option<Scope>
    decreases patterns, n,
{
    if n == 0 || n > patterns.len() {
        Some(s)
    } else {
        match patterns_scope(infos, s, patterns, (n - 1) as nat) {
            Some(s) => pattern_scope(infos, s, patterns[n - 1]),
            None => None,
        }
    }
}

/// What the first `n` of `seen` bind. Nothing can be said where an alias has no end.
pub open spec fn seen_scope(infos: Map<Seq<char>, AliasTy>, seen: Seq<Seen>, n: nat) -> Option<Scope>
    decreases n,
{
    if n == 0 || n > seen.len() {
        Some(Scope::empty())
    } else {
        match seen_scope(infos, seen, (n - 1) as nat) {
            Some(s) => match seen[n - 1] {
                Seen::Ident(id) => Some(s.bind(id.name@, id.typ@)),
                Seen::TypeIdent(gen) => Some(s.bind_type(gen.id, *gen.kind)),
                Seen::Pattern(pattern) => pattern_scope(infos, s, pattern),
                Seen::Alias(data) => Some(s.bind_alias(data)),
            },
            None => None,
        }
    }
}

/// Collects what is in scope.
pub struct Suggest {
    pub stack: Vec<(Symbol, ArcType)>,
    pub type_stack: Vec<(Symbol, ArcKind)>,
    pub patterns: Vec<(Symbol, ArcType)>,
}

pub open spec fn typed_names(bindings: Seq<(Symbol, ArcType)>) -> Seq<(Seq<char>, Ty)> {
    bindings.map_values(|b: (Symbol, ArcType)| (b.0@, b.1@))
}

pub open spec fn kinded_names(bindings: Seq<(Symbol, ArcKind)>) -> Seq<(Seq<char>, Kind)> {
    bindings.map_values(|b: (Symbol, ArcKind)| (b.0@, *b.1))
}

impl View for Suggest {
    type V = Scope;

    open spec fn view(&self) -> Scope {
        Scope {
            stack: typed_names(self.stack@),
            types: kinded_names(self.type_stack@),
            patterns: typed_names(self.patterns@),
        }
    }
}

proof fn patterns_scope_before(
    infos: Map<Seq<char>, AliasTy>,
    s: Scope,
    patterns: Seq<SpannedPattern>,
    m: nat,
    n: nat,
)
    requires
        m <= n <= patterns.len(),
        patterns_scope(infos, s, patterns, n) is Some,
    ensures
        patterns_scope(infos, s, patterns, m) is Some,
    decreases n,
{
    if m < n {
        patterns_scope_before(infos, s, patterns, m, (n - 1) as nat);
    }
}

proof fn seen_scope_before(infos: Map<Seq<char>, AliasTy>, seen: Seq<Seen>, m: nat, n: nat)
    requires
        m <= n <= seen.len(),
        seen_scope(infos, seen, n) is Some,
    ensures
        seen_scope(infos, seen, m) is Some,
    decreases n,
{
    if m < n {
        seen_scope_before(infos, seen, m, (n - 1) as nat);
    }
}

impl Suggest {
    pub fn new() -> (res: Suggest)
        ensures
            res@ == Scope::empty(),
    {
        let res = Suggest { stack: Vec::new(), type_stack: Vec::new(), patterns: Vec::new() };
        assert(typed_names(res.stack@) =~= Seq::<(Seq<char>, Ty)>::empty());
        assert(typed_names(res.patterns@) =~= Seq::<(Seq<char>, Ty)>::empty());
        assert(kinded_names(res.type_stack@) =~= Seq::<(Seq<char>, Kind)>::empty());
        res
    }

    fn bind(&mut self, name: &Symbol, typ: ArcType)
        ensures
            final(self)@ == old(self)@.bind(name@, typ@),
    {
        self.stack.push((name.clone(), typ));
        assert(typed_names(self.stack@) =~= old(self)@.stack.push((name@, typ@)));
    }

    fn bind_type(&mut self, name: &Symbol, kind: ArcKind)
        ensures
            final(self)@ == old(self)@.bind_type(name@, *kind),
    {
        self.type_stack.push((name.clone(), kind));
        assert(kinded_names(self.type_stack@) =~= old(self)@.types.push((name@, *kind)));
    }

    fn bind_constructors(&mut self, row: &ArcType)
        ensures
            final(self)@ == old(self)@.bind_constructors(row_fields(row@), row_fields(row@).len()),
    {
        let ghost all = row_fields(row@);
        let ghost start = self@;
        let mut iter = row_iter(row);
        let ghost mut i: int = 0;
        assert(all.skip(0) =~= all);
        loop
            invariant
                all == row_fields(row@),
                iter.wf(),
                0 <= i <= all.len(),
                iter@ == all.skip(i),
                start == old(self)@,
                self@ == start.bind_constructors(all, i as nat),
            decreases all.len() - i,
        {
            match iter.next() {
                Some(field) => {
                    let ghost before = self@;
                    proof {
                        assert(all.skip(i)[0] == all[i]);
                        assert(all.skip(i).drop_first() =~= all.skip(i + 1));
                    }
                    self.stack.push((field.name.clone(), field.typ.clone()));
                    self.patterns.push((field.name.clone(), field.typ.clone()));
                    proof {
                        let pair = (all[i].name, all[i].typ);
                        assert(typed_names(self.stack@) =~= before.stack.push(pair));
                        assert(typed_names(self.patterns@) =~= before.patterns.push(pair));
                        i = i + 1;
                    }
                },
                None => {
                    return ;
                },
            }
        }
    }

    /// The alias, and its constructors if it stands for a variant.
    pub fn on_alias(&mut self, alias: &AliasData)
        ensures
            final(self)@ == old(self)@.bind_alias(alias@),
    {
        // Insert variant constructors into the local scope
        let aliased_type = remove_forall(alias.unresolved_type());
        if let Type::Variant(row) = aliased_type.as_type() {
            self.bind_constructors(row);
        }
        let kind = alias.unresolved_type().kind(&KindCache::new());
        self.bind_type(alias.name(), kind);
    }

    fn bind_associated(&mut self, typ: &ArcType, name: &Symbol)
        ensures
            final(self)@ == match field_at(type_fields(typ@), name@, 0) {
                Some(i) => match type_fields(typ@)[i].typ {
                    Ty::Alias(alias) => old(self)@.bind_alias(alias.data()),
                    _ => old(self)@,
                },
                None => old(self)@,
            },
    {
        let ghost all = type_fields(typ@);
        let mut iter = type_field_iter(typ);
        let ghost mut i: int = 0;
        assert(all.skip(0) =~= all);
        loop
            invariant
                all == type_fields(typ@),
                iter.wf(),
                0 <= i <= all.len(),
                iter@ == all.skip(i),
                self@ == old(self)@,
                field_at(all, name@, 0) == field_at(all, name@, i),
            decreases all.len() - i,
        {
            match iter.next() {
                Some(field) => {
                    proof {
                        assert(all.skip(i)[0] == all[i]);
                        assert(all.skip(i).drop_first() =~= all.skip(i + 1));
                    }
                    if field.name.name_eq(name) {
                        self.on_alias(field.typ.as_ref().data());
                        return ;
                    }
                    proof {
                        i = i + 1;
                    }
                },
                None => {
                    return ;
                },
            }
        }
    }

    /// What `pattern` binds.
    pub fn on_pattern<E: TypeEnv>(&mut self, env: &E, pattern: &SpannedPattern)
        requires
            pattern_scope(env.infos(), old(self)@, *pattern) is Some,
        ensures
            pattern_scope(env.infos(), old(self)@, *pattern) == Some(final(self)@),
        decreases pattern, 1nat,
    {
        match &pattern.value {
            Pattern::As(id, inner) => {
                let typ = pattern_type_of(env, inner);
                self.bind(id, typ);
                self.on_pattern(env, inner);
            },
            Pattern::Ident(id) => {
                self.bind(&id.name, id.typ.clone());
            },
            Pattern::Record { typ, types, fields } => {
                let unaliased = remove_aliases(env, typ.clone());
                let ghost start = self@;
                let mut i: usize = 0;
                while i < types.len()
                    invariant
                        i <= types@.len(),
                        self@ == types_scope(start, types@, i as nat, unaliased@),
                    decreases types@.len() - i,
                {
                    self.bind_associated(&unaliased, &types[i].name.value);
                    i += 1;
                }
                let ghost middle = self@;
                let mut j: usize = 0;
                while j < fields.len()
                    invariant
                        j <= fields@.len(),
                        self@ == fields_scope(middle, fields@, j as nat, unaliased@),
                    decreases fields@.len() - j,
                {
                    if fields[j].value.is_none() {
                        let name = &fields[j].name.value;
                        let typ = row_field_type(&unaliased, name);
                        self.bind(name, typ);
                    }
                    j += 1;
                }
            },
            Pattern::Tuple { typ: _, elems } => {
                self.on_patterns(env, elems);
            },
            Pattern::Constructor(_, args) => {
                self.on_patterns(env, args);
            },
            Pattern::Error => {},
        }
    }

    fn on_patterns<E: TypeEnv>(&mut self, env: &E, patterns: &Vec<SpannedPattern>)
        requires
            patterns_scope(env.infos(), old(self)@, patterns@, patterns@.len()) is Some,
        ensures
            patterns_scope(env.infos(), old(self)@, patterns@, patterns@.len()) == Some(
                final(self)@,
            ),
        decreases patterns@, 0nat,
    {
        let ghost start = self@;
        let ghost infos = env.infos();
        let mut i: usize = 0;
        while i < patterns.len()
            invariant
                i <= patterns@.len(),
                infos == env.infos(),
                patterns_scope(infos, start, patterns@, patterns@.len()) is Some,
                patterns_scope(infos, start, patterns@, i as nat) == Some(self@),
            decreases patterns@.len() - i,
        {
            proof {
                patterns_scope_before(infos, start, patterns@, (i + 1) as nat, patterns@.len());
                assert(decreases_to!(patterns@ => patterns@[i as int]));
            }
            self.on_pattern(env, &patterns[i]);
            i += 1;
        }
    }

    /// What is in scope after all of `seen`.
    pub fn of_scope<'a, E: TypeEnv>(env: &E, seen: &Vec<InScope<'a>>) -> (res: Suggest)
        requires
            seen_scope(env.infos(), scope_view(seen@), seen@.len()) is Some,
        ensures
            seen_scope(env.infos(), scope_view(seen@), seen@.len()) == Some(res@),
    {
        let mut suggest = Suggest::new();
        let ghost all = scope_view(seen@);
        let ghost infos = env.infos();
        let mut i: usize = 0;
        while i < seen.len()
            invariant
                i <= seen@.len(),
                infos == env.infos(),
                all == scope_view(seen@),
                seen_scope(infos, all, seen@.len()) is Some,
                seen_scope(infos, all, i as nat) == Some(suggest@),
            decreases seen@.len() - i,
        {
            proof {
                seen_scope_before(infos, all, (i + 1) as nat, seen@.len());
                assert(all[i as int] == seen@[i as int]@);
            }
            match &seen[i] {
                InScope::Ident(id) => {
                    suggest.bind(&id.name, id.typ.clone());
                },
                InScope::TypeIdent(gen) => {
                    suggest.bind_type(&gen.id, gen.kind.clone());
                },
                InScope::Pattern(pattern) => {
                    suggest.on_pattern(env, pattern);
                },
                InScope::Alias(alias) => {
                    suggest.on_alias(alias);
                },
            }
            i += 1;
        }
        suggest
    }
}

/// The type of the field `name` of `typ`, or a hole.
fn row_field_type(typ: &ArcType, name: &Symbol) -> (res: ArcType)
    ensures
        res@ == field_type(row_fields(typ@), name@, 0, Ty::Hole),
{
    let ghost all = row_fields(typ@);
    let mut iter = row_iter(typ);
    let ghost mut i: int = 0;
    assert(all.skip(0) =~= all);
    loop
        invariant
            all == row_fields(typ@),
            iter.wf(),
            0 <= i <= all.len(),
            iter@ == all.skip(i),
            field_type(all, name@, 0, Ty::Hole) == field_type(all, name@, i, Ty::Hole),
        decreases all.len() - i,
    {
        match iter.next() {
            Some(field) => {
                proof {
                    assert(all.skip(i)[0] == all[i]);
                    assert(all.skip(i).drop_first() =~= all.skip(i + 1));
                }
                if field.name.name_eq(name) {
                    return field.typ.clone();
                }
                proof {
                    i = i + 1;
                }
            },
            None => {
                return Type::hole();
            },
        }
    }
}

/// The binding `i` of `bindings` is not hidden, and its declared name begins with `prefix`.
pub open spec fn shown<T>(bindings: Seq<(Seq<char>, T)>, prefix: Seq<char>, i: int) -> bool {
    &&& begins(last_part(bindings[i].0), prefix)
    &&& forall|j: int| i < j < bindings.len() ==> (#[trigger] bindings[j]).0 != bindings[i].0
}

/// The first `n` of `bindings` that are not hidden and whose declared names begin with `prefix`.
pub open spec fn visible<T>(
    bindings: Seq<(Seq<char>, T)>,
    prefix: Seq<char>,
    n: nat,
) -> Seq<(Seq<char>, T)>
    decreases n,
{
    if n == 0 || n > bindings.len() {
        Seq::empty()
    } else {
        let before = visible(bindings, prefix, (n - 1) as nat);
        if shown(bindings, prefix, n - 1) {
            before.push(bindings[n - 1])
        } else {
            before
        }
    }
}

/// Whether the binding `i` is not hidden, and its declared name begins with `prefix`.
pub(crate) fn is_shown<T>(bindings: &Vec<(Symbol, T)>, prefix: &str, i: usize) -> (res: bool)
    requires
        i < bindings@.len(),
    ensures
        forall|views: Seq<(Seq<char>, Ty)>|
            views.len() == bindings@.len() && (forall|k: int|
                0 <= k < views.len() ==> (#[trigger] views[k]).0 == bindings@[k].0@) ==> res
                == #[trigger] shown(views, prefix@, i as int),
        forall|views: Seq<(Seq<char>, Kind)>|
            views.len() == bindings@.len() && (forall|k: int|
                0 <= k < views.len() ==> (#[trigger] views[k]).0 == bindings@[k].0@) ==> res
                == #[trigger] shown(views, prefix@, i as int),
{
    if !starts_with(bindings[i].0.declared_name(), prefix) {
        return false;
    }
    let len: usize = bindings.len();
    let mut j: usize = i + 1;
    while j < bindings.len()
        invariant
            i < j <= bindings@.len(),
            forall|k: int| i < k < j ==> (#[trigger] bindings@[k]).0@ != bindings@[i as int].0@,
        decreases bindings@.len() - j,
    {
        if bindings[j].0 == bindings[i].0 {
            proof {
                assert forall|views: Seq<(Seq<char>, Ty)>|
                    views.len() == bindings@.len() && (forall|k: int|
                        0 <= k < views.len() ==> (#[trigger] views[k]).0 == bindings@[k].0@) implies
                    !(#[trigger] shown(views, prefix@, i as int)) by {
                    assert(views[j as int].0 == views[i as int].0);
                }
                assert forall|views: Seq<(Seq<char>, Kind)>|
                    views.len() == bindings@.len() && (forall|k: int|
                        0 <= k < views.len() ==> (#[trigger] views[k]).0 == bindings@[k].0@) implies
                    !(#[trigger] shown(views, prefix@, i as int)) by {
                    assert(views[j as int].0 == views[i as int].0);
                }
            }
            return false;
        }
        j += 1;
    }
    true
}

} // verus!
