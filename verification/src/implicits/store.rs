//! The collections in which implicit bindings are kept.

use std::collections::hash_map::RandomState;
use std::hash::{BuildHasher, Hash};
use std::rc::Rc;
use vstd::prelude::*;
use crate::ast::TypedIdent;
use crate::types::model::Ty;
use crate::types::{types_view, ArcType};

verus! {

#[verifier::external_type_specification]
#[verifier::external_body]
#[verifier::reject_recursive_types(T)]
pub struct ExVector<T>(rpds::Vector<T>);

#[verifier::external_type_specification]
#[verifier::external_body]
#[verifier::reject_recursive_types(T)]
pub struct ExList<T>(rpds::List<T>);

#[verifier::external_type_specification]
#[verifier::external_body]
#[verifier::reject_recursive_types(T)]
#[verifier::reject_recursive_types(H)]
pub struct ExHashTrieSet<T: Eq + Hash, H: BuildHasher + Clone>(rpds::HashTrieSet<T, H>);

/// A value that can be an implicit argument: how it is reached, and its type.
pub struct ImplicitBinding {
    pub path: Vec<TypedIdent>,
    pub typ: ArcType,
}

/// What a binding is, apart from how it is stored.
pub struct BindingTy {
    pub path: Seq<(Seq<char>, Ty)>,
    pub typ: Ty,
}

impl View for ImplicitBinding {
    type V = BindingTy;

    open spec fn view(&self) -> BindingTy {
        BindingTy {
            path: self.path@.map_values(|id: TypedIdent| (id.name@, id.typ@)),
            typ: self.typ@,
        }
    }
}

/// The bindings in `vector`.
pub uninterp spec fn bindings_in(vector: rpds::Vector<Rc<ImplicitBinding>>) -> Seq<BindingTy>;

/// The names in `set`.
pub uninterp spec fn names_in(set: rpds::HashTrieSet<String, RandomState>) -> Set<Seq<char>>;

/// What a partition holds: bindings, and further partitions by the names in types.
pub struct PartitionTree {
    pub branches: Map<Seq<char>, PartitionTree>,
    pub rest: Seq<BindingTy>,
}

/// Partitions by name.
#[verifier::external_body]
pub struct Branches {
    map: rpds::HashTrieMap<String, Partition>,
}

/// The partitions in `branches`.
pub uninterp spec fn branches_in(branches: Branches) -> Map<Seq<char>, PartitionTree>;

pub open spec fn no_trees() -> Map<Seq<char>, PartitionTree> {
    Map::empty()
}

/// Bindings by the names in their types.
pub struct Partition {
    pub(crate) branches: Branches,
    pub(crate) rest: rpds::Vector<Rc<ImplicitBinding>>,
}

impl View for Partition {
    type V = PartitionTree;

    open(crate) spec fn view(&self) -> PartitionTree {
        PartitionTree { branches: branches_in(self.branches), rest: bindings_in(self.rest) }
    }
}

/// Trusted: `rpds::Vector::new`, an empty vector.
#[verifier::external_body]
pub(crate) fn no_bindings() -> (res: rpds::Vector<Rc<ImplicitBinding>>)
    ensures
        bindings_in(res) == Seq::<BindingTy>::empty(),
{
    rpds::Vector::new()
}

/// Trusted: `rpds::Vector::push_back_mut`, which adds `binding` at the end.
#[verifier::external_body]
pub(crate) fn push_binding(vector: &mut rpds::Vector<Rc<ImplicitBinding>>, binding: Rc<ImplicitBinding>)
    ensures
        bindings_in(*final(vector)) == bindings_in(*old(vector)).push(binding@),
{
    vector.push_back_mut(binding);
}

/// Trusted: `rpds::Vector::len`, how many bindings there are.
#[verifier::external_body]
pub(crate) fn count_bindings(vector: &rpds::Vector<Rc<ImplicitBinding>>) -> (res: usize)
    ensures
        res == bindings_in(*vector).len(),
{
    vector.len()
}

/// Trusted: `rpds::Vector::get`, the binding at `index`, if there is one.
#[verifier::external_body]
pub(crate) fn binding_at(vector: &rpds::Vector<Rc<ImplicitBinding>>, index: usize) -> (res: Option<
    &Rc<ImplicitBinding>,
>)
    ensures
        match res {
            Some(binding) => index < bindings_in(*vector).len() && binding@ == bindings_in(
                *vector,
            )[index as int],
            None => index >= bindings_in(*vector).len(),
        },
{
    vector.get(index)
}

/// Trusted: `rpds::Vector::set_mut`, which puts `binding` at `index` and tells whether there was one.
#[verifier::external_body]
pub(crate) fn set_binding(
    vector: &mut rpds::Vector<Rc<ImplicitBinding>>,
    index: usize,
    binding: Rc<ImplicitBinding>,
) -> (res: bool)
    ensures
        res == (index < bindings_in(*old(vector)).len()),
        res ==> bindings_in(*final(vector)) == bindings_in(*old(vector)).update(
            index as int,
            binding@,
        ),
        !res ==> bindings_in(*final(vector)) == bindings_in(*old(vector)),
{
    vector.set_mut(index, binding)
}

/// Trusted: the `Clone` of `rpds::Vector`, which holds the same bindings.
#[verifier::external_body]
pub(crate) fn same_bindings(vector: &rpds::Vector<Rc<ImplicitBinding>>) -> (res: rpds::Vector<
    Rc<ImplicitBinding>,
>)
    ensures
        bindings_in(res) == bindings_in(*vector),
{
    vector.clone()
}

/// Trusted: `rpds::HashTrieMap::new`, an empty map.
#[verifier::external_body]
pub(crate) fn no_branches() -> (res: Branches)
    ensures
        branches_in(res) == no_trees(),
{
    Branches { map: rpds::HashTrieMap::new() }
}

/// Trusted: `rpds::HashTrieMap::get`, the partition at `key`, if there is one.
#[verifier::external_body]
pub(crate) fn branch_at<'a>(branches: &'a Branches, key: &String) -> (res: Option<&'a Partition>)
    ensures
        match res {
            Some(partition) => branches_in(*branches).dom().contains(key@) && branches_in(
                *branches,
            )[key@] == partition@,
            None => !branches_in(*branches).dom().contains(key@),
        },
{
    branches.map.get(key)
}

/// Trusted: `rpds::HashTrieMap::insert_mut`, which puts `partition` at `key`.
#[verifier::external_body]
pub(crate) fn set_branch(branches: &mut Branches, key: String, partition: Partition)
    ensures
        branches_in(*final(branches)) == branches_in(*old(branches)).insert(key@, partition@),
{
    branches.map.insert_mut(key, partition);
}

/// Trusted: `rpds::HashTrieMap::keys`, the keys of the map, each once, in no certain order.
#[verifier::external_body]
pub(crate) fn branch_names(branches: &Branches) -> (res: Vec<String>)
    ensures
        crate::text::strings_view(res@).to_set() == branches_in(*branches).dom(),
        crate::text::strings_view(res@).no_duplicates(),
{
    branches.map.keys().cloned().collect()
}

/// Trusted: the `Clone` of `rpds::HashTrieMap`, which holds the same partitions.
#[verifier::external_body]
pub(crate) fn same_branches(branches: &Branches) -> (res: Branches)
    ensures
        branches_in(res) == branches_in(*branches),
{
    Branches { map: branches.map.clone() }
}

/// Trusted: `rpds::HashTrieSet::new`, an empty set.
#[verifier::external_body]
pub(crate) fn no_names() -> (res: rpds::HashTrieSet<String, RandomState>)
    ensures
        names_in(res) == Set::<Seq<char>>::empty(),
{
    rpds::HashTrieSet::new()
}

/// Trusted: `rpds::HashTrieSet::insert_mut`, which adds `name`.
#[verifier::external_body]
pub(crate) fn add_name(set: &mut rpds::HashTrieSet<String, RandomState>, name: String)
    ensures
        names_in(*final(set)) == names_in(*old(set)).insert(name@),
{
    set.insert_mut(name);
}

/// Trusted: `rpds::HashTrieSet::contains`, whether `name` is in the set.
#[verifier::external_body]
pub(crate) fn has_name(set: &rpds::HashTrieSet<String, RandomState>, name: &str) -> (res: bool)
    ensures
        res == names_in(*set).contains(name@),
{
    set.contains(name)
}

/// Trusted: the `Clone` of `rpds::HashTrieSet`, which holds the same names.
#[verifier::external_body]
pub(crate) fn same_names(set: &rpds::HashTrieSet<String, RandomState>) -> (res: rpds::HashTrieSet<
    String,
    RandomState,
>)
    ensures
        names_in(res) == names_in(*set),
{
    set.clone()
}

/// The types in `list`.
pub uninterp spec fn types_in(list: rpds::List<ArcType>) -> Seq<Ty>;

/// Trusted: `rpds::List::new`, an empty list.
#[verifier::external_body]
pub(crate) fn no_types() -> (res: rpds::List<ArcType>)
    ensures
        types_in(res) == Seq::<Ty>::empty(),
{
    rpds::List::new()
}

/// Trusted: `rpds::List::push_front`, the list with `typ` in front of it.
#[verifier::external_body]
pub(crate) fn type_before(list: &rpds::List<ArcType>, typ: ArcType) -> (res: rpds::List<ArcType>)
    ensures
        types_in(res) == seq![typ@] + types_in(*list),
{
    list.push_front(typ)
}

/// Trusted: the `Clone` of `rpds::List`, which holds the same types.
#[verifier::external_body]
pub(crate) fn same_types(list: &rpds::List<ArcType>) -> (res: rpds::List<ArcType>)
    ensures
        types_in(res) == types_in(*list),
{
    list.clone()
}

/// Trusted: `rpds::List::iter`, which walks through the types from the front on.
#[verifier::external_body]
pub(crate) fn listed_types(list: &rpds::List<ArcType>) -> (res: Vec<ArcType>)
    ensures
        types_view(res@) == types_in(*list),
{
    list.iter().cloned().collect()
}

} // verus!
