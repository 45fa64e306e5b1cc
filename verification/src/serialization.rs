//! Values that are shared: each is written once and referred to afterwards.

use std::collections::HashMap;
use vstd::prelude::*;
use crate::text::{decimal, decimal_string, join};
use crate::types::model::Ty;
use crate::types::ArcType;

verus! {

pub type Id = u32;

/// A shared value as it is written: with an id, plainly, or as a reference to the one with the id.
pub enum Variant<T> {
    Marked(Id, T),
    Plain(T),
    Reference(Id),
}

/// A value that may be shared.
pub trait Shared {
    spec fn is_unique(&self) -> bool;

    spec fn place(&self) -> u64;

    /// Whether nothing else refers to the value.
    fn unique(&self) -> (res: bool)
        ensures
            res == self.is_unique(),
    ;

    /// The place of the value, which no other value has.
    fn as_ptr(&self) -> (res: u64)
        ensures
            res == self.place(),
    ;
}

/// A value that may be shared, by its place.
#[derive(Copy, Clone, Eq, PartialEq, Structural, Debug)]
pub struct Node {
    pub unique: bool,
    pub place: u64,
}

impl Shared for Node {
    open spec fn is_unique(&self) -> bool {
        self.unique
    }

    open spec fn place(&self) -> u64 {
        self.place
    }

    fn unique(&self) -> (res: bool) {
        self.unique
    }

    fn as_ptr(&self) -> (res: u64) {
        self.place
    }
}

/// The ids of the values that were written, by their places.
pub struct NodeToId {
    ids: HashMap<u64, Id>,
}

impl View for NodeToId {
    type V = Map<u64, Id>;

    closed spec fn view(&self) -> Map<u64, Id> {
        self.ids@
    }
}

/// What is known of a value that is to be written.
#[derive(Copy, Clone, Eq, PartialEq, Structural, Debug)]
pub enum Lookup {
    /// Nothing else refers to it.
    Unique,
    /// It was written before.
    Found(Id),
    /// It has not been written yet.
    Inserted(Id),
}

/// What is known of the value at `place`.
pub open spec fn looked_up(ids: Map<u64, Id>, unique: bool, place: u64) -> Lookup {
    if unique {
        Lookup::Unique
    } else if ids.dom().contains(place) {
        Lookup::Found(ids[place])
    } else {
        Lookup::Inserted(ids.len() as Id)
    }
}

/// The ids after the value at `place` was looked up.
pub open spec fn ids_after(ids: Map<u64, Id>, unique: bool, place: u64) -> Map<u64, Id> {
    match looked_up(ids, unique, place) {
        Lookup::Inserted(id) => ids.insert(place, id),
        _ => ids,
    }
}

impl NodeToId {
    pub fn new() -> (res: NodeToId)
        ensures
            res@ == Map::<u64, Id>::empty(),
    {
        NodeToId { ids: HashMap::new() }
    }
}

/// Looks `node` up. If it is shared it has an id afterwards.
pub fn node_to_id<T: Shared>(map: &mut NodeToId, node: &T) -> (res: Lookup)
    requires
        old(map)@.len() <= u32::MAX,
    ensures
        res == looked_up(old(map)@, node.is_unique(), node.place()),
        final(map)@ == ids_after(old(map)@, node.is_unique(), node.place()),
{
    broadcast use vstd::std_specs::hash::group_hash_axioms;

    if node.unique() {
        return Lookup::Unique;
    }
    let place: u64 = node.as_ptr();
    if let Some(id) = map.ids.get(&place) {
        return Lookup::Found(*id);
    }
    let id: Id = map.ids.len() as Id;
    map.ids.insert(place, id);
    Lookup::Inserted(id)
}

/// How the value `value` of `node` is written.
pub fn serialize<T: Shared, V>(map: &mut NodeToId, node: &T, value: V) -> (res: Variant<V>)
    requires
        old(map)@.len() <= u32::MAX,
    ensures
        final(map)@ == ids_after(old(map)@, node.is_unique(), node.place()),
        res == match looked_up(old(map)@, node.is_unique(), node.place()) {
            Lookup::Unique => Variant::Plain(value),
            Lookup::Found(id) => Variant::Reference(id),
            Lookup::Inserted(id) => Variant::Marked(id, value),
        },
{
    match node_to_id(map, node) {
        Lookup::Unique => Variant::Plain(value),
        Lookup::Found(id) => Variant::Reference(id),
        Lookup::Inserted(id) => Variant::Marked(id, value),
    }
}

/// The ids are those below the number of values, each given to a single value.
pub open spec fn ids_are_distinct(ids: Map<u64, Id>) -> bool {
    &&& forall|a: u64| #[trigger] ids.dom().contains(a) ==> ids[a] < ids.len()
    &&& forall|a: u64, b: u64|
        #[trigger] ids.dom().contains(a) && #[trigger] ids.dom().contains(b) && ids[a] == ids[b]
            ==> a == b
}

/// No two values are given the same id.
pub proof fn ids_stay_distinct(ids: Map<u64, Id>, unique: bool, place: u64)
    requires
        ids.dom().finite(),
        ids.len() <= u32::MAX,
        ids_are_distinct(ids),
    ensures
        ids_are_distinct(ids_after(ids, unique, place)),
{
}

/// The types that were read, by their ids.
#[verifier::external_body]
pub struct NodeMap {
    map: anymap::AnyMap,
}

/// The table of types by their ids that `nodes` holds.
pub uninterp spec fn table_in(nodes: NodeMap) -> Option<Map<Id, Ty>>;

/// The types in `nodes`.
pub open spec fn nodes_in(nodes: NodeMap) -> Map<Id, Ty> {
    match table_in(nodes) {
        Some(table) => table,
        None => Map::empty(),
    }
}

/// What the types in `table` are.
pub open spec fn table_view(table: Map<Id, ArcType>) -> Map<Id, Ty> {
    table.map_values(|typ: ArcType| typ@)
}

/// Trusted: `anymap::Map::new`, a map without values of any type.
#[verifier::external_body]
fn no_table() -> (res: NodeMap)
    ensures
        table_in(res) is None,
{
    NodeMap { map: anymap::AnyMap::new() }
}

/// Trusted: `anymap::Map::remove`, which takes the one value of a type out of the map, here the table
/// of types by their ids, if it is there.
#[verifier::external_body]
fn take_table(nodes: &mut NodeMap) -> (res: Option<HashMap<Id, ArcType>>)
    ensures
        table_in(*final(nodes)) is None,
        match res {
            Some(table) => table_in(*old(nodes)) == Some(table_view(table@)),
            None => table_in(*old(nodes)) is None,
        },
{
    nodes.map.remove::<HashMap<Id, ArcType>>()
}

/// Trusted: `anymap::Map::insert`, which makes `table` the one value of its type in the map.
#[verifier::external_body]
fn put_table(nodes: &mut NodeMap, table: HashMap<Id, ArcType>)
    ensures
        table_in(*final(nodes)) == Some(table_view(table@)),
{
    nodes.map.insert::<HashMap<Id, ArcType>>(table);
}

/// Trusted: `anymap::Map::get`, the one value of a type, here the table of types by their ids, if it
/// is there.
#[verifier::external_body]
fn the_table(nodes: &NodeMap) -> (res: Option<&HashMap<Id, ArcType>>)
    ensures
        match res {
            Some(table) => table_in(*nodes) == Some(table_view(table@)),
            None => table_in(*nodes) is None,
        },
{
    nodes.map.get::<HashMap<Id, ArcType>>()
}

impl NodeMap {
    pub fn new() -> (res: NodeMap)
        ensures
            nodes_in(res) == Map::<Id, Ty>::empty(),
    {
        no_table()
    }

    /// Puts the type `value` with the id `id` into the map.
    pub fn insert(&mut self, id: Id, value: ArcType)
        ensures
            nodes_in(*final(self)) == nodes_in(*old(self)).insert(id, value@),
    {
        broadcast use vstd::std_specs::hash::group_hash_axioms;

        let mut table: HashMap<Id, ArcType> = match take_table(self) {
            Some(table) => table,
            None => HashMap::new(),
        };
        let ghost before = table@;
        assert(table_view(before) =~= nodes_in(*old(self)));
        table.insert(id, value);
        assert(table_view(table@) =~= table_view(before).insert(id, value@));
        put_table(self, table);
    }

    /// The type with the id `id`.
    pub fn get(&self, id: &Id) -> (res: Option<ArcType>)
        ensures
            match res {
                Some(typ) => nodes_in(*self).dom().contains(*id) && nodes_in(*self)[*id] == typ@,
                None => !nodes_in(*self).dom().contains(*id),
            },
    {
        broadcast use vstd::std_specs::hash::group_hash_axioms;

        match the_table(self) {
            Some(table) => match table.get(id) {
                Some(typ) => Some(typ.clone()),
                None => None,
            },
            None => None,
        }
    }
}

/// The reference to a value that has not been read.
pub struct MissingId {
    pub id: Id,
}

impl MissingId {
    /// The message for the error.
    pub fn message(&self) -> (res: String)
        ensures
            res@ == "missing id "@ + decimal(self.id as nat),
    {
        join("missing id ", decimal_string(self.id as u64).as_str())
    }
}

/// What a type is, as it is written.
pub open spec fn variant_view(variant: Variant<ArcType>) -> Variant<Ty> {
    match variant {
        Variant::Marked(id, typ) => Variant::Marked(id, typ@),
        Variant::Plain(typ) => Variant::Plain(typ@),
        Variant::Reference(id) => Variant::Reference(id),
    }
}

/// What is read, and the types that were read by then.
pub open spec fn read(nodes: Map<Id, Ty>, variant: Variant<Ty>) -> (Map<Id, Ty>, Option<Ty>) {
    match variant {
        Variant::Marked(id, t) => (nodes.insert(id, t), Some(t)),
        Variant::Plain(t) => (nodes, Some(t)),
        Variant::Reference(id) => (
            nodes,
            if nodes.dom().contains(id) {
                Some(nodes[id])
            } else {
                None
            },
        ),
    }
}

/// Reads a type that may be shared.
pub fn deserialize(nodes: &mut NodeMap, variant: Variant<ArcType>) -> (res: Result<
    ArcType,
    MissingId,
>)
    ensures
        nodes_in(*final(nodes)) == read(nodes_in(*old(nodes)), variant_view(variant)).0,
        match (read(nodes_in(*old(nodes)), variant_view(variant)).1, res) {
            (Some(t), Ok(typ)) => typ@ == t,
            (None, Err(missing)) => variant == Variant::<ArcType>::Reference(missing.id),
            _ => false,
        },
{
    match variant {
        Variant::Marked(id, node) => {
            nodes.insert(id, node.clone());
            Ok(node)
        },
        Variant::Plain(value) => Ok(value),
        Variant::Reference(id) => match nodes.get(&id) {
            Some(typ) => Ok(typ),
            None => Err(MissingId { id }),
        },
    }
}

/// How a value at `place` is written.
pub open spec fn written(ids: Map<u64, Id>, unique: bool, place: u64, t: Ty) -> Variant<Ty> {
    match looked_up(ids, unique, place) {
        Lookup::Unique => Variant::Plain(t),
        Lookup::Found(id) => Variant::Reference(id),
        Lookup::Inserted(id) => Variant::Marked(id, t),
    }
}

/// The types that were read are those that were written: of each value that has an id.
pub open spec fn in_step(ids: Map<u64, Id>, nodes: Map<Id, Ty>, values: Map<u64, Ty>) -> bool {
    forall|place: u64| #[trigger]
        ids.dom().contains(place) ==> values.dom().contains(place) && nodes.dom().contains(
            ids[place],
        ) && nodes[ids[place]] == values[place]
}

/// What is written is read back, whether it is marked, plain or a reference, and reading stays in
/// step with writing.
pub proof fn written_is_read_back(
    ids: Map<u64, Id>,
    nodes: Map<Id, Ty>,
    values: Map<u64, Ty>,
    unique: bool,
    place: u64,
)
    requires
        ids.dom().finite(),
        ids.len() <= u32::MAX,
        ids_are_distinct(ids),
        in_step(ids, nodes, values),
        values.dom().contains(place),
    ensures
        read(nodes, written(ids, unique, place, values[place])).1 == Some(values[place]),
        in_step(
            ids_after(ids, unique, place),
            read(nodes, written(ids, unique, place, values[place])).0,
            values,
        ),
{
    let after = ids_after(ids, unique, place);
    let nodes2 = read(nodes, written(ids, unique, place, values[place])).0;
    assert forall|other: u64| #[trigger] after.dom().contains(other) implies values.dom().contains(
        other,
    ) && nodes2.dom().contains(after[other]) && nodes2[after[other]] == values[other] by {
        if ids.dom().contains(other) {
            assert(ids[other] < ids.len());
        }
    }
}

/// What writing shared values needs.
pub struct SeSeed {
    pub node_to_id: NodeToId,
}

impl SeSeed {
    pub fn new(node_to_id: NodeToId) -> (res: SeSeed)
        ensures
            res.node_to_id == node_to_id,
    {
        SeSeed { node_to_id }
    }
}

/// What reading shared values needs.
pub struct Seed {
    pub nodes: NodeMap,
}

impl Seed {
    pub fn new(nodes: NodeMap) -> (res: Seed)
        ensures
            res.nodes == nodes,
    {
        Seed { nodes }
    }
}

/// What reading names needs.
pub struct IdSeed {
    pub nodes: NodeMap,
}

impl IdSeed {
    pub fn new(nodes: NodeMap) -> (res: IdSeed)
        ensures
            res.nodes == nodes,
    {
        IdSeed { nodes }
    }
}

/// What reading values needs that are changed afterwards.
pub struct MapSeed<S, F> {
    pub seed: S,
    pub map: F,
}

impl<S, F> MapSeed<S, F> {
    pub fn new(seed: S, map: F) -> (res: MapSeed<S, F>)
        ensures
            res.seed == seed,
            res.map == map,
    {
        MapSeed { seed, map }
    }
}

} // verus!
