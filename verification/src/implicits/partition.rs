//! Implicit bindings by the names in their types.

use std::rc::Rc;
use vstd::prelude::*;
use crate::ast::TypedIdent;
use crate::implicits::store::{
    binding_at, bindings_in, branch_at, branch_names, count_bindings, no_bindings, no_branches,
    no_trees, push_binding, same_bindings, same_branches, set_binding, set_branch, BindingTy,
    ImplicitBinding, Partition, PartitionTree,
};
use crate::substitution::{actual, Subst, Substitution};
use crate::symbol_map::SymbolMap;
use crate::text::strings_view;
use crate::types::model::Ty;
use crate::types::query::SymbolKey;
use crate::types::walk::map_view;
use crate::types::walk::opt_view;
use crate::types::{ArcType, ArgType, BuiltinType, Type};

verus! {

/// The name that a type is found by, and its argument, if it has a single one.
pub type Key = Option<(Seq<char>, Option<Ty>)>;

/// The name that `t` is found by, after at most `f` steps inwards.
pub open spec fn key_within(f: nat, subst: Subst, t: Ty) -> Option<Key>
    decreases f,
{
    match actual(subst, t) {
        None => None,
        Some(Ty::App(id, args)) => if f == 0 {
            None
        } else {
            match key_within((f - 1) as nat, subst, *id) {
                Some(Some((name, _))) => Some(
                    Some(
                        (
                            name,
                            if args.len() == 1 {
                                Some(args[0])
                            } else {
                                None
                            },
                        ),
                    ),
                ),
                other => other,
            }
        },
        Some(Ty::Function(ArgType::Implicit, _, ret)) => if f == 0 {
            None
        } else {
            // Usually the implicit argument will appear directly inside the type that the name is
            // of so the argument is left out
            match key_within((f - 1) as nat, subst, *ret) {
                Some(Some((name, _))) => Some(Some((name, None))),
                other => other,
            }
        },
        Some(Ty::Function(ArgType::Explicit, _, _)) => Some(
            Some((BuiltinType::Function.text(), None)),
        ),
        Some(Ty::Skolem(skolem)) => Some(Some((skolem.name, None))),
        Some(Ty::Ident(id)) => Some(Some((id, None))),
        Some(Ty::Alias(alias)) => Some(Some((alias.data().name, None))),
        Some(Ty::Builtin(builtin)) => Some(Some((builtin.text(), None))),
        Some(Ty::Forall(_, inner)) => if f == 0 {
            None
        } else {
            key_within((f - 1) as nat, subst, *inner)
        },
        Some(_) => Some(None),
    }
}

proof fn key_settles(f: nat, g: nat, subst: Subst, t: Ty)
    requires
        f <= g,
        key_within(f, subst, t) is Some,
    ensures
        key_within(g, subst, t) == key_within(f, subst, t),
    decreases f,
{
    match actual(subst, t) {
        Some(Ty::App(id, _)) => {
            key_settles((f - 1) as nat, (g - 1) as nat, subst, *id);
        },
        Some(Ty::Function(ArgType::Implicit, _, ret)) => {
            key_settles((f - 1) as nat, (g - 1) as nat, subst, *ret);
        },
        Some(Ty::Forall(_, inner)) => {
            key_settles((f - 1) as nat, (g - 1) as nat, subst, *inner);
        },
        _ => {},
    }
}

/// The name that `t` is found by. There is no answer where variables are bound in a circle.
pub open spec fn key_of(subst: Subst, t: Ty) -> Option<Key> {
    if exists|f: nat| (#[trigger] key_within(f, subst, t)) is Some {
        key_within(choose|f: nat| (#[trigger] key_within(f, subst, t)) is Some, subst, t)
    } else {
        None
    }
}

/// Any number of steps that is enough gives the answer.
pub proof fn key_of_is(f: nat, subst: Subst, t: Ty)
    requires
        key_within(f, subst, t) is Some,
    ensures
        key_of(subst, t) == key_within(f, subst, t),
{
    let g = choose|f: nat| (#[trigger] key_within(f, subst, t)) is Some;
    if f <= g {
        key_settles(f, g, subst, t);
    } else {
        key_settles(g, f, subst, t);
    }
}

/// The names that `t` is found by, from the outside to the inside, at most `f` of them.
pub open spec fn keys_within(f: nat, subst: Subst, t: Option<Ty>) -> Option<Seq<Seq<char>>>
    decreases f,
{
    match t {
        None => Some(Seq::empty()),
        Some(t) => match key_of(subst, t) {
            None => None,
            Some(None) => Some(Seq::empty()),
            Some(Some((name, rest))) => if f == 0 {
                None
            } else {
                match keys_within((f - 1) as nat, subst, rest) {
                    None => None,
                    Some(names) => Some(seq![name] + names),
                }
            },
        },
    }
}

proof fn keys_settle(f: nat, g: nat, subst: Subst, t: Option<Ty>)
    requires
        f <= g,
        keys_within(f, subst, t) is Some,
    ensures
        keys_within(g, subst, t) == keys_within(f, subst, t),
    decreases f,
{
    if let Some(t) = t {
        if let Some(Some((_, rest))) = key_of(subst, t) {
            keys_settle((f - 1) as nat, (g - 1) as nat, subst, rest);
        }
    }
}

/// The names that `t` is found by, from the outside to the inside.
pub open spec fn keys_of(subst: Subst, t: Option<Ty>) -> Option<Seq<Seq<char>>> {
    if exists|f: nat| (#[trigger] keys_within(f, subst, t)) is Some {
        keys_within(choose|f: nat| (#[trigger] keys_within(f, subst, t)) is Some, subst, t)
    } else {
        None
    }
}

/// Any number of names that is enough gives the answer.
pub proof fn keys_of_is(f: nat, subst: Subst, t: Option<Ty>)
    requires
        keys_within(f, subst, t) is Some,
    ensures
        keys_of(subst, t) == keys_within(f, subst, t),
{
    let g = choose|f: nat| (#[trigger] keys_within(f, subst, t)) is Some;
    if f <= g {
        keys_settle(f, g, subst, t);
    } else {
        keys_settle(g, f, subst, t);
    }
}

/// The bindings in the partition that `path` leads to.
pub open spec fn rest_at(tree: PartitionTree, path: Seq<Seq<char>>) -> Option<Seq<BindingTy>>
    decreases path.len(),
{
    if path.len() == 0 {
        Some(tree.rest)
    } else if tree.branches.dom().contains(path[0]) {
        rest_at(tree.branches[path[0]], path.drop_first())
    } else {
        None
    }
}

/// A binding that is found by `keys` belongs to the partition that `path` leads to: to each on the
/// way to the innermost one but the outermost.
pub open spec fn belongs(keys: Seq<Seq<char>>, path: Seq<Seq<char>>) -> bool {
    path.len() <= keys.len() && path == keys.take(path.len() as int) && (path.len() > 0
        || keys.len() == 0)
}

/// The bindings in a partition, with one more if it belongs there.
pub open spec fn with_binding(
    rest: Option<Seq<BindingTy>>,
    belongs: bool,
    binding: BindingTy,
) -> Option<Seq<BindingTy>> {
    if belongs {
        Some(
            (match rest {
                Some(rest) => rest,
                None => Seq::empty(),
            }).push(binding),
        )
    } else {
        rest
    }
}

/// The bindings that are found by `keys`: those of the innermost partition that has any.
pub open spec fn candidates(tree: PartitionTree, keys: Seq<Seq<char>>) -> Option<Seq<BindingTy>>
    decreases keys.len(),
{
    let outer = if tree.rest.len() == 0 {
        None
    } else {
        Some(tree.rest)
    };
    if keys.len() > 0 && tree.branches.dom().contains(keys[0]) {
        match candidates(tree.branches[keys[0]], keys.drop_first()) {
            Some(inner) => Some(inner),
            None => outer,
        }
    } else {
        outer
    }
}

impl SymbolKey {
    /// The name that `typ` is found by, and its argument, if it has a single one.
    pub fn split(subs: &Substitution, typ: &ArcType) -> (res: Option<(SymbolKey, Option<ArcType>)>)
        requires
            key_of(subs@, typ@) is Some,
        ensures
            match res {
                Some((key, rest)) => key_of(subs@, typ@) == Some(Some((key@, opt_view(rest)))),
                None => key_of(subs@, typ@) == Some(None::<(Seq<char>, Option<Ty>)>),
            },
    {
        let ghost f = choose|f: nat| (#[trigger] key_within(f, subs@, typ@)) is Some;
        SymbolKey::split_within(subs, typ, Ghost(f))
    }

    fn split_within(subs: &Substitution, typ: &ArcType, Ghost(f): Ghost<nat>) -> (res: Option<
        (SymbolKey, Option<ArcType>),
    >)
        requires
            key_within(f, subs@, typ@) is Some,
        ensures
            match res {
                Some((key, rest)) => key_within(f, subs@, typ@) == Some(
                    Some((key@, opt_view(rest))),
                ),
                None => key_within(f, subs@, typ@) == Some(None::<(Seq<char>, Option<Ty>)>),
            },
        decreases f,
    {
        match subs.actual(typ).as_type() {
            Type::App(id, args) => {
                match SymbolKey::split_within(subs, id, Ghost((f - 1) as nat)) {
                    Some((key, _)) => {
                        if args.len() == 1 {
                            Some((key, Some(args[0].clone())))
                        } else {
                            Some((key, None))
                        }
                    },
                    None => None,
                }
            },
            Type::Function(ArgType::Implicit, _, ret_type) => {
                match SymbolKey::split_within(subs, ret_type, Ghost((f - 1) as nat)) {
                    Some((key, _)) => Some((key, None)),
                    None => None,
                }
            },
            Type::Function(ArgType::Explicit, _, _) => {
                Some((SymbolKey::Ref(BuiltinType::Function.to_str()), None))
            },
            Type::Skolem(skolem) => Some((SymbolKey::Owned(skolem.name.clone()), None)),
            Type::Ident(id) => Some((SymbolKey::Owned(id.clone()), None)),
            Type::Alias(alias) => Some((SymbolKey::Owned(alias.data().name().clone()), None)),
            Type::Builtin(builtin) => Some((SymbolKey::Ref(builtin.to_str()), None)),
            Type::Forall(_, typ) => SymbolKey::split_within(subs, typ, Ghost((f - 1) as nat)),
            _ => None,
        }
    }
}

/// `binding` with the type that its name has in `types`, if it is reached by its name alone.
pub open spec fn updated_binding(binding: BindingTy, types: Map<Seq<char>, Ty>) -> BindingTy {
    if binding.path.len() == 1 {
        BindingTy { path: binding.path, typ: types[binding.path[0].0] }
    } else {
        binding
    }
}

pub open spec fn updated_bindings(
    bindings: Seq<BindingTy>,
    types: Map<Seq<char>, Ty>,
) -> Seq<BindingTy> {
    bindings.map_values(|binding: BindingTy| updated_binding(binding, types))
}

/// All names that bindings are reached by alone have a type in `types`.
pub open spec fn all_typed(bindings: Seq<BindingTy>, types: Map<Seq<char>, Ty>) -> bool {
    forall|i: int|
        0 <= i < bindings.len() && (#[trigger] bindings[i]).path.len() == 1
            ==> types.dom().contains(bindings[i].path[0].0)
}

/// A binding is reached by its name alone.
pub open spec fn any_single(bindings: Seq<BindingTy>) -> bool {
    exists|i: int| 0 <= i < bindings.len() && (#[trigger] bindings[i]).path.len() == 1
}

/// All names that bindings are reached by alone have a type in `types`, in all partitions.
pub open spec fn tree_typed(tree: PartitionTree, types: Map<Seq<char>, Ty>) -> bool {
    forall|path: Seq<Seq<char>>|
        (#[trigger] rest_at(tree, path)) matches Some(rest) ==> all_typed(rest, types)
}

pub open spec fn updated_rest(
    rest: Option<Seq<BindingTy>>,
    types: Map<Seq<char>, Ty>,
) -> Option<Seq<BindingTy>> {
    match rest {
        Some(rest) => Some(updated_bindings(rest, types)),
        None => None,
    }
}

/// A binding in one of the partitions is reached by its name alone.
pub open spec fn tree_single(tree: PartitionTree) -> bool {
    exists|path: Seq<Seq<char>>|
        (#[trigger] rest_at(tree, path)) matches Some(rest) && any_single(rest)
}

impl Partition {
    pub fn new() -> (res: Partition)
        ensures
            res@ == (PartitionTree { branches: no_trees(), rest: Seq::empty() }),
    {
        Partition { branches: no_branches(), rest: no_bindings() }
    }

    /// The same partition.
    pub fn duplicate(&self) -> (res: Partition)
        ensures
            res@ == self@,
    {
        Partition { branches: same_branches(&self.branches), rest: same_bindings(&self.rest) }
    }

    /// Adds `value`, which is found by the names in `typ`.
    pub fn insert(&mut self, subs: &Substitution, typ: Option<ArcType>, value: Rc<ImplicitBinding>)
        requires
            keys_of(subs@, opt_view(typ)) is Some,
        ensures
            forall|path: Seq<Seq<char>>|
                #[trigger] rest_at(final(self)@, path) == with_binding(
                    rest_at(old(self)@, path),
                    belongs(keys_of(subs@, opt_view(typ))->0, path),
                    value@,
                ),
    {
        // Ignore the insertion request at the top level as we know that the partitioning is
        // correct here (it matches on the implicit type rather than the argument to the implicit
        // type)
        let ghost f = choose|f: nat| (#[trigger] keys_within(f, subs@, opt_view(typ))) is Some;
        self.insert_(subs, typ, value, Ghost(f));
    }

    #[verifier::rlimit(30)]
    fn insert_(
        &mut self,
        subs: &Substitution,
        typ: Option<ArcType>,
        value: Rc<ImplicitBinding>,
        Ghost(f): Ghost<nat>,
    ) -> (res: bool)
        requires
            keys_within(f, subs@, opt_view(typ)) is Some,
        ensures
            res == ((keys_within(f, subs@, opt_view(typ))->0).len() > 0),
            forall|path: Seq<Seq<char>>|
                #[trigger] rest_at(final(self)@, path) == with_binding(
                    rest_at(old(self)@, path),
                    belongs(keys_within(f, subs@, opt_view(typ))->0, path),
                    value@,
                ),
        decreases f,
    {
        let ghost keys = keys_within(f, subs@, opt_view(typ))->0;
        let split = match &typ {
            Some(typ) => SymbolKey::split(subs, typ),
            None => None,
        };
        match split {
            Some((symbol, rest)) => {
                let key = symbol.symbol().as_str().to_owned();
                let mut partition = match branch_at(&self.branches, &key) {
                    Some(partition) => partition.duplicate(),
                    None => Partition::new(),
                };
                let ghost child = partition@;
                let ghost inner = keys_within((f - 1) as nat, subs@, opt_view(rest))->0;
                if partition.insert_(subs, rest, value.clone(), Ghost((f - 1) as nat)) {
                    let ghost before = partition@;
                    push_binding(&mut partition.rest, value.clone());
                    proof {
                        assert forall|path: Seq<Seq<char>>| #[trigger]
                            rest_at(partition@, path) == if path.len() == 0 {
                            Some(before.rest.push(value@))
                        } else {
                            rest_at(before, path)
                        } by {}
                        assert(rest_at(before, Seq::empty()) == Some(before.rest));
                        assert(rest_at(child, Seq::empty()) == Some(child.rest));
                    }
                }
                proof {
                    assert(keys =~= seq![key@] + inner);
                    assert forall|path: Seq<Seq<char>>| #[trigger]
                        rest_at(partition@, path) == with_binding(
                        rest_at(child, path),
                        path.len() <= inner.len() && path == inner.take(path.len() as int),
                        value@,
                    ) by {
                        if path.len() == 0 {
                            assert(path =~= inner.take(0));
                            assert(rest_at(child, path) == Some(child.rest));
                        }
                    }
                }
                let ghost new = partition@;
                set_branch(&mut self.branches, key, partition);
                proof {
                    assert forall|path: Seq<Seq<char>>| #[trigger]
                        rest_at(self@, path) == with_binding(
                        rest_at(old(self)@, path),
                        belongs(keys, path),
                        value@,
                    ) by {
                        inserted_at(old(self)@, self@, key@, child, new, inner, path, value@);
                    }
                }
                true
            },
            None => {
                push_binding(&mut self.rest, value);
                proof {
                    assert(keys =~= Seq::<Seq<char>>::empty());
                    assert forall|path: Seq<Seq<char>>| #[trigger]
                        rest_at(self@, path) == with_binding(
                        rest_at(old(self)@, path),
                        belongs(keys, path),
                        value@,
                    ) by {
                        if path.len() == 0 {
                            assert(path =~= keys.take(0));
                        }
                    }
                }
                false
            },
        }
    }

    /// The bindings that are found by the names in `typ`.
    pub fn get_candidates(&self, subs: &Substitution, typ: Option<ArcType>) -> (res: Option<
        Vec<Rc<ImplicitBinding>>,
    >)
        requires
            keys_of(subs@, opt_view(typ)) is Some,
        ensures
            match res {
                Some(found) => candidates(self@, keys_of(subs@, opt_view(typ))->0) == Some(
                    shared_view(found@),
                ),
                None => candidates(self@, keys_of(subs@, opt_view(typ))->0) is None,
            },
    {
        let ghost f = choose|f: nat| (#[trigger] keys_within(f, subs@, opt_view(typ))) is Some;
        self.get_candidates_(subs, typ, Ghost(f))
    }

    fn get_candidates_(&self, subs: &Substitution, typ: Option<ArcType>, Ghost(f): Ghost<nat>) -> (res:
        Option<Vec<Rc<ImplicitBinding>>>)
        requires
            keys_within(f, subs@, opt_view(typ)) is Some,
        ensures
            match res {
                Some(found) => candidates(self@, keys_within(f, subs@, opt_view(typ))->0) == Some(
                    shared_view(found@),
                ),
                None => candidates(self@, keys_within(f, subs@, opt_view(typ))->0) is None,
            },
        decreases f,
    {
        let ghost keys = keys_within(f, subs@, opt_view(typ))->0;
        let split = match &typ {
            Some(typ) => SymbolKey::split(subs, typ),
            None => None,
        };
        if let Some((symbol, rest)) = split {
            let key = symbol.symbol().as_str().to_owned();
            proof {
                let inner = keys_within((f - 1) as nat, subs@, opt_view(rest))->0;
                assert(keys =~= seq![key@] + inner);
                assert(keys.drop_first() =~= inner);
            }
            if let Some(partition) = branch_at(&self.branches, &key) {
                let inner = partition.get_candidates_(subs, rest, Ghost((f - 1) as nat));
                if inner.is_some() {
                    return inner;
                }
            }
        }
        let all = listed_bindings(&self.rest);
        assert(shared_view(all@).len() == all@.len());
        if all.len() == 0 {
            None
        } else {
            Some(all)
        }
    }

    /// Gives the bindings that are reached by their names alone the types that they have in `types`.
    /// Tells whether there are any.
    #[verifier::rlimit(30)]
    pub fn update(&mut self, types: &SymbolMap<ArcType>) -> (res: bool)
        requires
            tree_typed(old(self)@, map_view(types@)),
        ensures
            res == tree_single(old(self)@),
            forall|path: Seq<Seq<char>>|
                #[trigger] rest_at(final(self)@, path) == updated_rest(
                    rest_at(old(self)@, path),
                    map_view(types@),
                ),
        decreases old(self)@,
    {
        let ghost map = map_view(types@);
        let ghost start = self@;
        let names = branch_names(&self.branches);
        let ghost all = strings_view(names@);
        let mut updated = false;
        let mut i: usize = 0;
        proof {
            assert(start.branches.dom().finite());
        }
        while i < names.len()
            invariant
                i <= names@.len(),
                start == old(self)@,
                map == map_view(types@),
                all == strings_view(names@),
                all.no_duplicates(),
                all.to_set() == start.branches.dom(),
                start.branches.dom().finite(),
                tree_typed(start, map),
                self@.rest == start.rest,
                self@.branches.dom() == start.branches.dom(),
                forall|j: int|
                    0 <= j < i ==> #[trigger] updated_tree(
                        start.branches[all[j]],
                        self@.branches[all[j]],
                        map,
                    ),
                forall|j: int|
                    i <= j < all.len() ==> self@.branches[#[trigger] all[j]]
                        == start.branches[all[j]],
                updated == exists|j: int|
                    0 <= j < i && tree_single(start.branches[#[trigger] all[j]]),
            decreases names@.len() - i,
        {
            let ghost before = self@;
            let ghost key = all[i as int];
            proof {
                assert(all.contains(key));
                assert(start.branches.dom().contains(key));
                assert(decreases_to!(start.branches => start.branches[key]));
                assert(decreases_to!(start => start.branches));
                branch_is_typed(start, map, key);
            }
            let branch = branch_at(&self.branches, &names[i]);
            let mut partition = match branch {
                Some(partition) => partition.duplicate(),
                None => Partition::new(),
            };
            let ghost child = partition@;
            assert(child == start.branches[key]);
            if partition.update(types) {
                updated = true;
                set_branch(&mut self.branches, names[i].clone(), partition);
                assert(self@.branches.dom() =~= start.branches.dom());
                assert(updated_tree(child, self@.branches[key], map));
                assert(tree_single(start.branches[all[i as int]]));
            } else {
                proof {
                    nothing_to_update(child, map);
                }
            }
            proof {
                assert(updated_tree(start.branches[all[i as int]], self@.branches[key], map));
                assert forall|j: int| 0 <= j < i + 1 implies #[trigger] updated_tree(
                    start.branches[all[j]],
                    self@.branches[all[j]],
                    map,
                ) by {
                    if j < i {
                        assert(all[j] != all[i as int]);
                        assert(updated_tree(start.branches[all[j]], before.branches[all[j]], map));
                    }
                }
                assert forall|j: int| i + 1 <= j < all.len() implies self@.branches[
                #[trigger] all[j]] == start.branches[all[j]] by {
                    assert(all[j] != all[i as int]);
                }
            }
            i += 1;
        }
        proof {
            assert(rest_at(start, Seq::empty()) == Some(start.rest));
        }
        let rest_updated = update_vec(&mut self.rest, types);
        proof {
            assert forall|path: Seq<Seq<char>>| #[trigger]
                rest_at(self@, path) == updated_rest(rest_at(start, path), map) by {
                if path.len() > 0 {
                    if start.branches.dom().contains(path[0]) {
                        assert(all.to_set().contains(path[0]));
                        assert(all.contains(path[0]));
                        let j = all.index_of(path[0]);
                        assert(updated_tree(start.branches[all[j]], self@.branches[all[j]], map));
                        assert(rest_at(self@.branches[all[j]], path.drop_first()) == updated_rest(
                            rest_at(start.branches[all[j]], path.drop_first()),
                            map,
                        ));
                    }
                }
            }
            if updated {
                let j = choose|j: int|
                    0 <= j < all.len() && tree_single(start.branches[#[trigger] all[j]]);
                assert(all.contains(all[j]));
                let inner = choose|path: Seq<Seq<char>>|
                    (#[trigger] rest_at(start.branches[all[j]], path)) matches Some(rest)
                        && any_single(rest);
                let path = seq![all[j]] + inner;
                assert(path.drop_first() =~= inner);
                assert(rest_at(start, path) == rest_at(start.branches[all[j]], inner));
                assert(tree_single(start));
            }
            if tree_single(start) && !rest_updated {
                let path = choose|path: Seq<Seq<char>>|
                    (#[trigger] rest_at(start, path)) matches Some(rest) && any_single(rest);
                assert(path.len() > 0);
                assert(all.to_set().contains(path[0]));
                assert(all.contains(path[0]));
                let j = all.index_of(path[0]);
                assert(rest_at(start.branches[all[j]], path.drop_first()) == rest_at(start, path));
                assert(tree_single(start.branches[all[j]]));
            }
        }
        updated || rest_updated
    }
}

/// `new` is `old` with the types in `types`.
pub open spec fn updated_tree(old: PartitionTree, new: PartitionTree, types: Map<Seq<char>, Ty>) -> bool {
    forall|path: Seq<Seq<char>>|
        #[trigger] rest_at(new, path) == updated_rest(rest_at(old, path), types)
}

proof fn branch_is_typed(tree: PartitionTree, types: Map<Seq<char>, Ty>, key: Seq<char>)
    requires
        tree_typed(tree, types),
        tree.branches.dom().contains(key),
    ensures
        tree_typed(tree.branches[key], types),
{
    assert forall|path: Seq<Seq<char>>|
        (#[trigger] rest_at(tree.branches[key], path)) matches Some(rest) implies all_typed(
        rest_at(tree.branches[key], path)->0,
        types,
    ) by {
        let longer = seq![key] + path;
        assert(longer.drop_first() =~= path);
        assert(rest_at(tree, longer) == rest_at(tree.branches[key], path));
    }
}

/// Where no binding is reached by its name alone nothing is updated.
proof fn nothing_to_update(tree: PartitionTree, types: Map<Seq<char>, Ty>)
    requires
        !tree_single(tree),
    ensures
        updated_tree(tree, tree, types),
{
    assert forall|path: Seq<Seq<char>>| #[trigger]
        rest_at(tree, path) == updated_rest(rest_at(tree, path), types) by {
        if let Some(rest) = rest_at(tree, path) {
            assert(!any_single(rest));
            assert(updated_bindings(rest, types) =~= rest);
        }
    }
}

/// What a partition holds after the branch `key` was replaced by one with a further binding.
proof fn inserted_at(
    old: PartitionTree,
    new: PartitionTree,
    key: Seq<char>,
    child: PartitionTree,
    new_child: PartitionTree,
    inner: Seq<Seq<char>>,
    path: Seq<Seq<char>>,
    binding: BindingTy,
)
    requires
        new == (PartitionTree { branches: old.branches.insert(key, new_child), rest: old.rest }),
        old.branches.dom().contains(key) ==> child == old.branches[key],
        !old.branches.dom().contains(key) ==> child == (PartitionTree {
            branches: no_trees(),
            rest: Seq::empty(),
        }),
        forall|path: Seq<Seq<char>>|
            #[trigger] rest_at(new_child, path) == with_binding(
                rest_at(child, path),
                path.len() <= inner.len() && path == inner.take(path.len() as int),
                binding,
            ),
    ensures
        rest_at(new, path) == with_binding(
            rest_at(old, path),
            belongs(seq![key] + inner, path),
            binding,
        ),
{
    let keys = seq![key] + inner;
    if path.len() > 0 {
        let rest = path.drop_first();
        if path[0] == key {
            assert(rest_at(new, path) == rest_at(new_child, rest));
            assert(path =~= seq![key] + rest);
            if rest.len() <= inner.len() && rest == inner.take(rest.len() as int) {
                assert(path =~= keys.take(path.len() as int));
            } else if path.len() <= keys.len() && path == keys.take(path.len() as int) {
                assert(rest =~= inner.take(rest.len() as int));
            }
            if !old.branches.dom().contains(key) {
                if rest.len() > 0 {
                    assert(rest_at(child, rest) is None);
                } else {
                    assert(rest_at(child, rest) == Some(Seq::<BindingTy>::empty()));
                    assert(rest =~= inner.take(0));
                }
            }
        } else {
            if path.len() <= keys.len() && path == keys.take(path.len() as int) {
                assert(path[0] == keys[0]);
            }
        }
    }
}

/// What `bindings` are, apart from how they are shared.
pub open spec fn shared_view(bindings: Seq<Rc<ImplicitBinding>>) -> Seq<BindingTy> {
    bindings.map_values(|binding: Rc<ImplicitBinding>| binding@)
}

/// The bindings in `vector`.
fn listed_bindings(vector: &rpds::Vector<Rc<ImplicitBinding>>) -> (res: Vec<Rc<ImplicitBinding>>)
    ensures
        shared_view(res@) == bindings_in(*vector),
{
    let mut res: Vec<Rc<ImplicitBinding>> = Vec::new();
    let len: usize = count_bindings(vector);
    let mut i: usize = 0;
    while i < len
        invariant
            i <= len == bindings_in(*vector).len(),
            res@.len() == i,
            forall|j: int| 0 <= j < i ==> (#[trigger] res@[j])@ == bindings_in(*vector)[j],
        decreases len - i,
    {
        if let Some(binding) = binding_at(vector, i) {
            res.push(binding.clone());
        }
        i += 1;
    }
    assert(shared_view(res@) =~= bindings_in(*vector));
    res
}

/// The path `path`.
pub(crate) fn clone_path(path: &Vec<TypedIdent>) -> (res: Vec<TypedIdent>)
    ensures
        path_view(res@) == path_view(path@),
{
    let mut res: Vec<TypedIdent> = Vec::new();
    let mut i: usize = 0;
    while i < path.len()
        invariant
            i <= path@.len(),
            res@.len() == i,
            forall|j: int|
                0 <= j < i ==> (#[trigger] res@[j]).name@ == path@[j].name@ && res@[j].typ@
                    == path@[j].typ@,
        decreases path@.len() - i,
    {
        res.push(TypedIdent { name: path[i].name.clone(), typ: path[i].typ.clone() });
        i += 1;
    }
    assert(path_view(res@) =~= path_view(path@));
    res
}

pub open spec fn path_view(path: Seq<TypedIdent>) -> Seq<(Seq<char>, Ty)> {
    path.map_values(|id: TypedIdent| (id.name@, id.typ@))
}

/// Gives the bindings that are reached by their names alone the types that they have in `types`.
fn update_vec(vector: &mut rpds::Vector<Rc<ImplicitBinding>>, types: &SymbolMap<ArcType>) -> (res:
    bool)
    requires
        all_typed(bindings_in(*old(vector)), map_view(types@)),
    ensures
        res == any_single(bindings_in(*old(vector))),
        bindings_in(*final(vector)) == updated_bindings(
            bindings_in(*old(vector)),
            map_view(types@),
        ),
{
    let ghost map = map_view(types@);
    let ghost start = bindings_in(*vector);
    let len: usize = count_bindings(vector);
    let mut updated = false;
    let mut i: usize = 0;
    while i < len
        invariant
            i <= len == start.len(),
            start == bindings_in(*old(vector)),
            map == map_view(types@),
            all_typed(start, map),
            bindings_in(*vector).len() == len,
            forall|j: int|
                0 <= j < i ==> (#[trigger] bindings_in(*vector)[j]) == updated_binding(
                    start[j],
                    map,
                ),
            forall|j: int| i <= j < len ==> (#[trigger] bindings_in(*vector)[j]) == start[j],
            updated == exists|j: int| 0 <= j < i && (#[trigger] start[j]).path.len() == 1,
        decreases len - i,
    {
        let new = match binding_at(vector, i) {
            Some(binding) => {
                assert(binding@ == start[i as int]);
                assert(binding@.path.len() == binding.path@.len());
                if binding.path.len() == 1 {
                    assert(start[i as int].path[0].0 == binding.path@[0].name@);
                    match types.get(&binding.path[0].name) {
                        Some(typ) => {
                            let path = clone_path(&binding.path);
                            let new = ImplicitBinding { path, typ: typ.clone() };
                            assert(new@.path == path_view(path@));
                            assert(binding@.path == path_view(binding.path@));
                            Some(Rc::new(new))
                        },
                        None => None,
                    }
                } else {
                    None
                }
            },
            None => None,
        };
        if let Some(new) = new {
            set_binding(vector, i, new);
            updated = true;
            assert(start[i as int].path.len() == 1);
        }
        i += 1;
    }
    assert(bindings_in(*vector) =~= updated_bindings(start, map));
    updated
}

} // verus!
