//! The representation of types.

pub mod apply;
pub mod cache;
pub mod display;
pub mod flags;
pub mod model;
pub mod parts;
pub mod query;
pub mod walk;
pub mod rows;
pub mod same;
pub mod translate;
pub mod visit;

use std::sync::Arc;
use vstd::pervasive::unreached;
use vstd::prelude::*;
use crate::kind::{ArcKind, Kind};
use crate::symbol::Symbol;
use crate::text::{decimal, decimal_string, join};
use crate::types::flags::{has_flag, Flags};
use crate::types::model::{AliasDataTy, AliasTy, FieldTy, GenericTy, SkolemTy, Ty};

verus! {

/// The builtin types.
#[derive(Copy, Clone, Eq, PartialEq, Structural, Debug, Hash)]
pub enum BuiltinType {
    /// Unicode string
    String,
    /// Unsigned byte
    Byte,
    /// Character
    Char,
    /// Integer number
    Int,
    /// Floating point number
    Float,
    /// Type constructor for arrays, `Array a : Type -> Type`
    Array,
    /// Type constructor for functions, `(->) a b : Type -> Type -> Type`
    Function,
}

impl BuiltinType {
    /// The name of the type in source code.
    pub open spec fn text(self) -> Seq<char> {
        match self {
            BuiltinType::String => "String"@,
            BuiltinType::Byte => "Byte"@,
            BuiltinType::Char => "Char"@,
            BuiltinType::Int => "Int"@,
            BuiltinType::Float => "Float"@,
            BuiltinType::Array => "Array"@,
            BuiltinType::Function => "->"@,
        }
    }

    /// The name of the type in source code.
    pub fn to_str(self) -> (res: &'static str)
        ensures
            res@ == self.text(),
    {
        match self {
            BuiltinType::String => "String",
            BuiltinType::Byte => "Byte",
            BuiltinType::Char => "Char",
            BuiltinType::Int => "Int",
            BuiltinType::Float => "Float",
            BuiltinType::Array => "Array",
            BuiltinType::Function => "->",
        }
    }

    /// The name of the type as a symbol.
    pub fn symbol(self) -> (res: Symbol)
        ensures
            res@ == self.text(),
    {
        Symbol::new(self.to_str().to_owned())
    }
}

/// How the argument of a function type is passed.
#[derive(Copy, Clone, Eq, PartialEq, Structural, Debug, Hash)]
pub enum ArgType {
    Explicit,
    Implicit,
    Constructor,
}

/// An unbound type variable.
pub struct TypeVariable {
    pub kind: ArcKind,
    pub id: u32,
}

impl TypeVariable {
    /// The variable `var` of kind `Type`.
    pub fn new(var: u32) -> (res: TypeVariable)
        ensures
            res.id == var,
            *res.kind == Kind::Type,
    {
        TypeVariable::with_kind(Kind::Type, var)
    }

    /// The variable `var` of kind `kind`.
    pub fn with_kind(kind: Kind, var: u32) -> (res: TypeVariable)
        ensures
            res.id == var,
            *res.kind == kind,
    {
        TypeVariable { kind: Arc::new(kind), id: var }
    }
}

impl Clone for TypeVariable {
    fn clone(&self) -> (res: TypeVariable)
        ensures
            res == *self,
    {
        TypeVariable { kind: self.kind.clone(), id: self.id }
    }
}

impl PartialEq for TypeVariable {
    fn eq(&self, other: &TypeVariable) -> (res: bool) {
        self.id == other.id
    }
}

impl vstd::std_specs::cmp::PartialEqSpecImpl for TypeVariable {
    open spec fn obeys_eq_spec() -> bool {
        true
    }

    open spec fn eq_spec(&self, other: &TypeVariable) -> bool {
        self.id == other.id
    }
}

/// A type constant that stands for a parameter inside its scope.
pub struct Skolem {
    pub name: Symbol,
    pub id: u32,
    pub kind: ArcKind,
}

impl View for Skolem {
    type V = SkolemTy;

    open spec fn view(&self) -> SkolemTy {
        SkolemTy { name: self.name@, id: self.id, kind: self.kind }
    }
}

impl Clone for Skolem {
    fn clone(&self) -> (res: Skolem)
        ensures
            res == *self,
    {
        Skolem { name: self.name.clone(), id: self.id, kind: self.kind.clone() }
    }
}

/// A type parameter.
pub struct Generic {
    pub id: Symbol,
    pub kind: ArcKind,
}

impl View for Generic {
    type V = GenericTy;

    open spec fn view(&self) -> GenericTy {
        GenericTy { id: self.id@, kind: self.kind }
    }
}

impl Generic {
    pub fn new(id: Symbol, kind: ArcKind) -> (res: Generic)
        ensures
            res == (Generic { id, kind }),
    {
        Generic { id, kind }
    }

    /// Whether `self` and `other` are the same parameter.
    pub fn same(&self, other: &Generic) -> (res: bool)
        ensures
            res == (self@ == other@),
    {
        self.id == other.id && self.kind.same(&other.kind)
    }
}

impl Clone for Generic {
    fn clone(&self) -> (res: Generic)
        ensures
            res == *self,
    {
        Generic { id: self.id.clone(), kind: self.kind.clone() }
    }
}

/// A field of a row.
pub struct Field {
    pub name: Symbol,
    pub typ: ArcType,
}

impl Field {
    pub fn new(name: Symbol, typ: ArcType) -> (res: Field)
        ensures
            res == (Field { name, typ }),
    {
        Field { name, typ }
    }

    /// A variant constructor named `ctor_name` that takes `elems`.
    pub fn ctor(ctor_name: Symbol, elems: Vec<ArcType>) -> (res: Field)
        ensures
            res.name == ctor_name,
            res.typ@ == function_ty(ArgType::Constructor, types_view(elems@), Ty::Opaque),
    {
        let typ = Type::function_type(ArgType::Constructor, elems, Type::opaque());
        Field { name: ctor_name, typ }
    }
}

impl Clone for Field {
    fn clone(&self) -> (res: Field)
        ensures
            res == *self,
    {
        Field { name: self.name.clone(), typ: self.typ.clone() }
    }
}

/// An associated type of a record.
pub struct TypeField {
    pub name: Symbol,
    pub typ: Alias,
}

impl Clone for TypeField {
    fn clone(&self) -> (res: TypeField)
        ensures
            res == *self,
    {
        TypeField { name: self.name.clone(), typ: self.typ.clone() }
    }
}

/// The representation of types. Types are held through `ArcType`, which shares them.
pub enum Type {
    /// An unbound type `_`, awaiting ascription.
    Hole,
    /// An opaque type
    Opaque,
    /// A type used to mark type errors
    Error,
    /// A builtin type
    Builtin(BuiltinType),
    /// Universally quantified types
    Forall(Vec<Generic>, ArcType),
    /// A type application with multiple arguments. For example,
    /// `Map String Int` would be represented as `App(Map, [String, Int])`.
    App(ArcType, Vec<ArcType>),
    /// Function type which can have a explicit or implicit argument
    Function(ArgType, ArcType, ArcType),
    /// Record constructor, of kind `Row -> Type`
    Record(ArcType),
    /// Variant constructor, of kind `Row -> Type`
    Variant(ArcType),
    /// Effect constructor, of kind `Row -> Type -> Type`
    Effect(ArcType),
    /// The empty row, of kind `Row`
    EmptyRow,
    /// Row extension, of kind `... -> Row -> Row`
    ExtendRow {
        /// The fields of this record type
        fields: Vec<Field>,
        /// The rest of the row
        rest: ArcType,
    },
    /// Row extension, of kind `... -> Row -> Row`
    ExtendTypeRow {
        /// The associated types of this record type
        types: Vec<TypeField>,
        /// The rest of the row
        rest: ArcType,
    },
    /// An identifier type, to be resolved into an alias during type checking. Identifiers are also
    /// used inside aliased types to avoid cycles in shared pointers.
    Ident(Symbol),
    Projection(Vec<Symbol>),
    /// An unbound type variable that may be unified with other types. These
    /// will eventually be converted into `Type::Generic`s during generalization.
    Variable(TypeVariable),
    /// A variable that needs to be instantiated with a fresh type variable
    /// when the binding is referred to.
    Generic(Generic),
    Alias(AliasRef),
    Skolem(Skolem),
}

struct ArcTypeInner {
    typ: Type,
    flags: Flags,
}

/// A shared type which is atomically reference counted. What sorts of types occur in it is known
/// without looking through it.
pub struct ArcType {
    typ: Arc<ArcTypeInner>,
}

/// One alias out of a group of aliases that may refer to each other.
pub struct AliasRef {
    index: usize,
    group: Arc<Vec<AliasData>>,
}

/// Data for a type alias. `Alias` allows for cheap conversion back into a type as well.
pub struct AliasData {
    pub name: Symbol,
    args: Vec<Generic>,
    typ: ArcType,
    pub is_implicit: bool,
}

/// A type that is known to be an alias.
pub struct Alias {
    typ: ArcType,
}

pub open spec fn generics_view(generics: Seq<Generic>) -> Seq<GenericTy> {
    generics.map_values(|g: Generic| g@)
}

pub open spec fn symbols_view(symbols: Seq<Symbol>) -> Seq<Seq<char>> {
    symbols.map_values(|s: Symbol| s@)
}

/// The types in `types`.
pub open spec fn types_view(types: Seq<ArcType>) -> Seq<Ty>
    decreases types, 0nat,
{
    Seq::new(
        types.len(),
        |i: int|
            if 0 <= i < types.len() {
                types[i]@
            } else {
                Ty::Hole
            },
    )
}

/// The fields in `fields`.
pub open spec fn fields_view(fields: Seq<Field>) -> Seq<FieldTy>
    decreases fields, 0nat,
{
    Seq::new(
        fields.len(),
        |i: int|
            if 0 <= i < fields.len() {
                FieldTy { name: fields[i].name@, typ: fields[i].typ@ }
            } else {
                FieldTy { name: Seq::empty(), typ: Ty::Hole }
            },
    )
}

/// The associated types in `types`.
pub open spec fn type_fields_view(types: Seq<TypeField>) -> Seq<FieldTy>
    decreases types, 0nat,
{
    Seq::new(
        types.len(),
        |i: int|
            if 0 <= i < types.len() {
                FieldTy { name: types[i].name@, typ: types[i].typ@ }
            } else {
                FieldTy { name: Seq::empty(), typ: Ty::Hole }
            },
    )
}

/// The definitions in `group`.
pub open spec fn group_view(group: Seq<AliasData>) -> Seq<AliasDataTy>
    decreases group, 0nat,
{
    Seq::new(
        group.len(),
        |i: int|
            if 0 <= i < group.len() {
                group[i]@
            } else {
                arbitrary()
            },
    )
}

/// What the type `typ` is.
pub open spec fn type_view(typ: Type) -> Ty
    decreases typ, 0nat,
{
    match typ {
        Type::Hole => Ty::Hole,
        Type::Opaque => Ty::Opaque,
        Type::Error => Ty::Error,
        Type::Builtin(b) => Ty::Builtin(b),
        Type::Forall(params, typ) => Ty::Forall(generics_view(params@), Box::new(typ@)),
        Type::App(f, args) => Ty::App(Box::new(f@), types_view(args@)),
        Type::Function(arg_type, arg, ret) => Ty::Function(
            arg_type,
            Box::new(arg@),
            Box::new(ret@),
        ),
        Type::Record(row) => Ty::Record(Box::new(row@)),
        Type::Variant(row) => Ty::Variant(Box::new(row@)),
        Type::Effect(row) => Ty::Effect(Box::new(row@)),
        Type::EmptyRow => Ty::EmptyRow,
        Type::ExtendRow { fields, rest } => Ty::ExtendRow(fields_view(fields@), Box::new(rest@)),
        Type::ExtendTypeRow { types, rest } => Ty::ExtendTypeRow(
            type_fields_view(types@),
            Box::new(rest@),
        ),
        Type::Ident(id) => Ty::Ident(id@),
        Type::Projection(ids) => Ty::Projection(symbols_view(ids@)),
        Type::Variable(var) => Ty::Variable(var),
        Type::Generic(gen) => Ty::Generic(gen@),
        Type::Alias(alias) => Ty::Alias(alias@),
        Type::Skolem(skolem) => Ty::Skolem(skolem@),
    }
}

impl View for ArcType {
    type V = Ty;

    closed spec fn view(&self) -> Ty
        decreases self, 1nat,
    {
        type_view(self.typ.typ)
    }
}

impl View for AliasRef {
    type V = AliasTy;

    closed spec fn view(&self) -> AliasTy
        decreases self, 1nat,
    {
        AliasTy { index: self.index as int, group: group_view(self.group@) }
    }
}

impl View for AliasData {
    type V = AliasDataTy;

    closed spec fn view(&self) -> AliasDataTy
        decreases self, 1nat,
    {
        AliasDataTy {
            name: self.name@,
            params: generics_view(self.args@),
            typ: self.typ@,
            is_implicit: self.is_implicit,
        }
    }
}

impl View for Alias {
    type V = Ty;

    closed spec fn view(&self) -> Ty
        decreases self, 1nat,
    {
        self.typ@
    }
}

impl ArcType {
    #[verifier::type_invariant]
    closed spec fn flags_agree(self) -> bool {
        forall|mask: u8| #[trigger]
            (self.typ.flags.bits() & mask) != 0 <==> has_flag(type_view(self.typ.typ), mask)
    }

    /// Shares `typ`.
    pub fn new(typ: Type) -> (res: ArcType)
        ensures
            res@ == type_view(typ),
    {
        let flags = Flags::from_type(&typ);
        ArcType { typ: Arc::new(ArcTypeInner { typ, flags }) }
    }

    /// The type that is shared.
    pub fn as_type(&self) -> (res: &Type)
        ensures
            self@ == type_view(*res),
    {
        &self.typ.typ
    }

    /// The sorts of types that occur in the type.
    pub fn flags(&self) -> (res: Flags)
        ensures
            forall|mask: u8| #[trigger] (res.bits() & mask) != 0 <==> has_flag(self@, mask),
    {
        proof {
            use_type_invariant(self);
        }
        self.typ.flags
    }

    /// Replaces the type in `into` by `typ`.
    pub fn set(into: &mut ArcType, typ: Type)
        ensures
            final(into)@ == type_view(typ),
    {
        *into = ArcType::new(typ);
    }
}

impl Clone for ArcType {
    fn clone(&self) -> (res: ArcType)
        ensures
            res == *self,
    {
        proof {
            use_type_invariant(self);
        }
        ArcType { typ: self.typ.clone() }
    }
}

impl AliasRef {
    #[verifier::type_invariant]
    closed spec fn in_group(self) -> bool {
        self.index < self.group@.len()
    }
}

impl AliasRef {
    /// The alias `index` of `group`.
    pub fn new(index: usize, group: Arc<Vec<AliasData>>) -> (res: AliasRef)
        requires
            index < group@.len(),
        ensures
            res@ == (AliasTy { index: index as int, group: group_view(group@) }),
    {
        AliasRef { index, group }
    }

    /// Which alias of the group this is.
    pub fn index(&self) -> (res: usize)
        ensures
            res == self@.index,
            res < self@.group.len(),
    {
        proof {
            use_type_invariant(self);
        }
        self.index
    }

    /// The aliases of the group.
    pub fn group(&self) -> (res: &Arc<Vec<AliasData>>)
        ensures
            group_view(res@) == self@.group,
    {
        &self.group
    }

    /// The definition of the alias.
    pub fn data(&self) -> (res: &AliasData)
        ensures
            res@ == self@.data(),
            0 <= self@.index < self@.group.len(),
    {
        proof {
            use_type_invariant(self);
        }
        &self.group[self.index]
    }

    /// The definition of the alias.
    pub(crate) fn try_get_alias(&self) -> (res: Option<&AliasData>)
        ensures
            res matches Some(data) && data@ == self@.data(),
    {
        Some(self.data())
    }
}

impl Alias {
    #[verifier::type_invariant]
    closed spec fn is_alias(self) -> bool {
        self.typ@ is Alias
    }

    /// The alias `name`, with parameters `args`, of `typ`.
    pub fn new(name: Symbol, args: Vec<Generic>, typ: ArcType) -> (res: Alias)
        ensures
            res@ == alias_ty(name@, generics_view(args@), typ@, false),
    {
        Alias { typ: Type::alias(name, args, typ) }
    }

    /// One alias for each definition in `group`, all of them in the same group.
    pub fn group(group: Vec<AliasData>) -> (res: Vec<Alias>)
        ensures
            res@.len() == group@.len(),
            forall|i: int|
                0 <= i < group@.len() ==> (#[trigger] res@[i])@ == Ty::Alias(
                    AliasTy { index: i, group: group_view(group@) },
                ),
    {
        let group = Arc::new(group);
        let mut res: Vec<Alias> = Vec::new();
        let mut i: usize = 0;
        while i < group.len()
            invariant
                i <= group@.len(),
                res@.len() == i,
                forall|j: int|
                    0 <= j < i ==> (#[trigger] res@[j])@ == Ty::Alias(
                        AliasTy { index: j, group: group_view(group@) },
                    ),
            decreases group@.len() - i,
        {
            res.push(Alias::from_ref(AliasRef { index: i, group: group.clone() }));
            i += 1;
        }
        res
    }

    /// The alias that `data` refers to.
    pub fn from_ref(data: AliasRef) -> (res: Alias)
        ensures
            res@ == Ty::Alias(data@),
    {
        Alias { typ: ArcType::new(Type::Alias(data)) }
    }

    /// The alias that `data` defines, in a group of its own. Whether it is implicit is not kept.
    pub fn from_data(data: AliasData) -> (res: Alias)
        ensures
            res@ == alias_ty(data@.name, data@.params, data@.typ, false),
    {
        Alias { typ: Type::alias(data.name, data.args, data.typ) }
    }

    /// The alias that `data` defines, in a group of its own.
    pub fn new_data_alias(data: AliasData) -> (res: Alias)
        ensures
            res@ == Ty::Alias(AliasTy { index: 0, group: seq![data@] }),
    {
        let group = vec![data];
        assert(group_view(group@) =~= seq![data@]);
        Alias::from_ref(AliasRef { index: 0, group: Arc::new(group) })
    }

    /// The alias as a type.
    pub fn as_type(&self) -> (res: &ArcType)
        ensures
            res@ == self@,
            self@ is Alias,
    {
        proof {
            use_type_invariant(self);
        }
        &self.typ
    }

    /// The alias as a type.
    pub fn into_type(self) -> (res: ArcType)
        ensures
            res@ == self@,
            self@ is Alias,
    {
        proof {
            use_type_invariant(&self);
        }
        self.typ
    }

    /// The reference to the alias's definition.
    pub fn as_ref(&self) -> (res: &AliasRef)
        ensures
            self@ == Ty::Alias(res@),
    {
        proof {
            use_type_invariant(self);
        }
        match self.typ.as_type() {
            Type::Alias(alias) => alias,
            _ => unreached(),
        }
    }
}

impl AliasData {
    /// The alias `name`, with parameters `args`, of `typ`.
    pub fn new(name: Symbol, args: Vec<Generic>, typ: ArcType) -> (res: AliasData)
        ensures
            res@ == (AliasDataTy {
                name: name@,
                params: generics_view(args@),
                typ: typ@,
                is_implicit: false,
            }),
    {
        AliasData { name, args, typ, is_implicit: false }
    }

    /// The same alias of `typ`.
    pub fn with_type(&self, typ: ArcType) -> (res: AliasData)
        ensures
            res@ == (AliasDataTy { typ: typ@, ..self@ }),
    {
        AliasData {
            name: self.name.clone(),
            args: clone_generics(&self.args),
            typ,
            is_implicit: self.is_implicit,
        }
    }

    /// The name of the alias.
    pub fn name(&self) -> (res: &Symbol)
        ensures
            res@ == self@.name,
    {
        &self.name
    }

    /// The type that is being aliased, with the names of its group not resolved to the aliases that
    /// they stand for.
    pub fn unresolved_type(&self) -> (res: &ArcType)
        ensures
            res@ == self@.typ,
    {
        &self.typ
    }

    /// The type that is being aliased, to be changed.
    pub fn unresolved_type_mut(&mut self) -> (res: &mut ArcType)
        ensures
            res@ == old(self)@.typ,
            final(self)@ == (AliasDataTy { typ: final(res)@, ..old(self)@ }),
    {
        &mut self.typ
    }

    pub fn is_implicit(&self) -> (res: bool)
        ensures
            res == self@.is_implicit,
    {
        self.is_implicit
    }

    /// The parameters of the alias.
    pub fn params(&self) -> (res: &Vec<Generic>)
        ensures
            generics_view(res@) == self@.params,
    {
        &self.args
    }

    /// The parameters of the alias, to be changed.
    pub fn params_mut(&mut self) -> (res: &mut Vec<Generic>)
        ensures
            generics_view(res@) == old(self)@.params,
            final(self)@ == (AliasDataTy { params: generics_view(final(res)@), ..old(self)@ }),
    {
        &mut self.args
    }

    /// The type that is being aliased.
    pub fn aliased_type(&self) -> (res: &ArcType)
        ensures
            res@ == self@.typ,
    {
        &self.typ
    }
}

impl Clone for AliasData {
    fn clone(&self) -> (res: AliasData)
        ensures
            res@ == self@,
    {
        AliasData {
            name: self.name.clone(),
            args: clone_generics(&self.args),
            typ: self.typ.clone(),
            is_implicit: self.is_implicit,
        }
    }
}

/// An alias in a group of its own.
pub open spec fn alias_ty(
    name: Seq<char>,
    params: Seq<GenericTy>,
    typ: Ty,
    is_implicit: bool,
) -> Ty {
    Ty::Alias(AliasTy { index: 0, group: seq![AliasDataTy { name, params, typ, is_implicit }] })
}

/// Copies a list of parameters.
pub fn clone_generics(generics: &Vec<Generic>) -> (res: Vec<Generic>)
    ensures
        res@ == generics@,
{
    let mut res: Vec<Generic> = Vec::new();
    let mut i: usize = 0;
    while i < generics.len()
        invariant
            i <= generics@.len(),
            res@ == generics@.subrange(0, i as int),
        decreases generics@.len() - i,
    {
        res.push(generics[i].clone());
        assert(generics@.subrange(0, i + 1) =~= generics@.subrange(0, i as int).push(
            generics@[i as int],
        ));
        i += 1;
    }
    assert(generics@.subrange(0, i as int) =~= generics@);
    res
}

/// Copies a list of symbols.
pub fn clone_symbols(symbols: &Vec<Symbol>) -> (res: Vec<Symbol>)
    ensures
        res@ == symbols@,
{
    let mut res: Vec<Symbol> = Vec::new();
    let mut i: usize = 0;
    while i < symbols.len()
        invariant
            i <= symbols@.len(),
            res@ == symbols@.subrange(0, i as int),
        decreases symbols@.len() - i,
    {
        res.push(symbols[i].clone());
        assert(symbols@.subrange(0, i + 1) =~= symbols@.subrange(0, i as int).push(
            symbols@[i as int],
        ));
        i += 1;
    }
    assert(symbols@.subrange(0, i as int) =~= symbols@);
    res
}

/// Copies a list of types.
pub fn clone_types(types: &Vec<ArcType>) -> (res: Vec<ArcType>)
    ensures
        res@ == types@,
{
    let mut res: Vec<ArcType> = Vec::new();
    let mut i: usize = 0;
    while i < types.len()
        invariant
            i <= types@.len(),
            res@ == types@.subrange(0, i as int),
        decreases types@.len() - i,
    {
        res.push(types[i].clone());
        assert(types@.subrange(0, i + 1) =~= types@.subrange(0, i as int).push(types@[i as int]));
        i += 1;
    }
    assert(types@.subrange(0, i as int) =~= types@);
    res
}

/// Copies a list of fields.
pub fn clone_fields(fields: &Vec<Field>) -> (res: Vec<Field>)
    ensures
        res@ == fields@,
{
    let mut res: Vec<Field> = Vec::new();
    let mut i: usize = 0;
    while i < fields.len()
        invariant
            i <= fields@.len(),
            res@ == fields@.subrange(0, i as int),
        decreases fields@.len() - i,
    {
        res.push(fields[i].clone());
        assert(fields@.subrange(0, i + 1) =~= fields@.subrange(0, i as int).push(fields@[i as int]));
        i += 1;
    }
    assert(fields@.subrange(0, i as int) =~= fields@);
    res
}

/// Copies a list of associated types.
pub fn clone_type_fields(types: &Vec<TypeField>) -> (res: Vec<TypeField>)
    ensures
        res@ == types@,
{
    let mut res: Vec<TypeField> = Vec::new();
    let mut i: usize = 0;
    while i < types.len()
        invariant
            i <= types@.len(),
            res@ == types@.subrange(0, i as int),
        decreases types@.len() - i,
    {
        res.push(types[i].clone());
        assert(types@.subrange(0, i + 1) =~= types@.subrange(0, i as int).push(types@[i as int]));
        i += 1;
    }
    assert(types@.subrange(0, i as int) =~= types@);
    res
}

impl Clone for Alias {
    fn clone(&self) -> (res: Alias)
        ensures
            res == *self,
    {
        proof {
            use_type_invariant(self);
        }
        Alias { typ: self.typ.clone() }
    }
}

impl Clone for AliasRef {
    fn clone(&self) -> (res: AliasRef)
        ensures
            res == *self,
    {
        proof {
            use_type_invariant(self);
        }
        AliasRef { index: self.index, group: self.group.clone() }
    }
}

/// A function type from `args` to `ret`, one argument at a time.
pub open spec fn function_ty(arg_type: ArgType, args: Seq<Ty>, ret: Ty) -> Ty
    decreases args.len(),
{
    if args.len() == 0 {
        ret
    } else {
        Ty::Function(
            arg_type,
            Box::new(args[0]),
            Box::new(function_ty(arg_type, args.drop_first(), ret)),
        )
    }
}

/// `f` applied to `args`, which is `f` itself where there are none.
pub open spec fn app_ty(f: Ty, args: Seq<Ty>) -> Ty {
    if args.len() == 0 {
        f
    } else {
        Ty::App(Box::new(f), args)
    }
}

/// `typ` quantified over `params`, which is `typ` itself where there are none.
pub open spec fn forall_ty(params: Seq<GenericTy>, typ: Ty) -> Ty {
    if params.len() == 0 {
        typ
    } else {
        Ty::Forall(params, Box::new(typ))
    }
}

/// The row `rest` extended by `fields`.
pub open spec fn row_ty(fields: Seq<FieldTy>, rest: Ty) -> Ty {
    if fields.len() == 0 {
        rest
    } else {
        Ty::ExtendRow(fields, Box::new(rest))
    }
}

/// The row `rest` extended by the associated types `types`.
pub open spec fn type_row_ty(types: Seq<FieldTy>, rest: Ty) -> Ty {
    if types.len() == 0 {
        rest
    } else {
        Ty::ExtendTypeRow(types, Box::new(rest))
    }
}

/// The record with the associated types `types`, the fields `fields` and the rest `rest`.
pub open spec fn record_ty(types: Seq<FieldTy>, fields: Seq<FieldTy>, rest: Ty) -> Ty {
    Ty::Record(Box::new(type_row_ty(types, row_ty(fields, rest))))
}

/// The fields of a tuple of `elems`: `_0`, `_1` and so on.
pub open spec fn tuple_fields(elems: Seq<Ty>) -> Seq<FieldTy> {
    Seq::new(elems.len(), |i: int| FieldTy { name: tuple_field_name(i as nat), typ: elems[i] })
}

/// The name of the element `i` of a tuple.
pub open spec fn tuple_field_name(i: nat) -> Seq<char> {
    "_"@ + decimal(i)
}

impl Type {
    pub fn hole() -> (res: ArcType)
        ensures
            res@ == Ty::Hole,
    {
        ArcType::new(Type::Hole)
    }

    pub fn opaque() -> (res: ArcType)
        ensures
            res@ == Ty::Opaque,
    {
        ArcType::new(Type::Opaque)
    }

    pub fn error() -> (res: ArcType)
        ensures
            res@ == Ty::Error,
    {
        ArcType::new(Type::Error)
    }

    pub fn builtin(typ: BuiltinType) -> (res: ArcType)
        ensures
            res@ == Ty::Builtin(typ),
    {
        ArcType::new(Type::Builtin(typ))
    }

    /// `typ` quantified over `params`.
    pub fn forall_(params: Vec<Generic>, typ: ArcType) -> (res: ArcType)
        ensures
            res@ == forall_ty(generics_view(params@), typ@),
    {
        if params.len() == 0 {
            typ
        } else {
            ArcType::new(Type::Forall(params, typ))
        }
    }

    /// The type of arrays of `typ`.
    pub fn array(typ: ArcType) -> (res: ArcType)
        ensures
            res@ == app_ty(Ty::Builtin(BuiltinType::Array), seq![typ@]),
    {
        let args = vec![typ];
        assert(types_view(args@) =~= seq![typ@]);
        Type::app(Type::array_builtin(), args)
    }

    pub fn array_builtin() -> (res: ArcType)
        ensures
            res@ == Ty::Builtin(BuiltinType::Array),
    {
        Type::builtin(BuiltinType::Array)
    }

    /// `id` applied to `args`.
    pub fn app(id: ArcType, args: Vec<ArcType>) -> (res: ArcType)
        ensures
            res@ == app_ty(id@, types_view(args@)),
    {
        if args.len() == 0 {
            id
        } else {
            ArcType::new(Type::App(id, args))
        }
    }

    /// The variant with the constructors `fields`.
    pub fn variant(fields: Vec<Field>) -> (res: ArcType)
        ensures
            res@ == Ty::Variant(Box::new(row_ty(fields_view(fields@), Ty::EmptyRow))),
    {
        Type::poly_variant(fields, Type::empty_row())
    }

    /// The variant with the constructors `fields` and those of `rest`.
    pub fn poly_variant(fields: Vec<Field>, rest: ArcType) -> (res: ArcType)
        ensures
            res@ == Ty::Variant(Box::new(row_ty(fields_view(fields@), rest@))),
    {
        ArcType::new(Type::Variant(Type::extend_row(fields, rest)))
    }

    /// The effect with the effects `fields`.
    pub fn effect(fields: Vec<Field>) -> (res: ArcType)
        ensures
            res@ == Ty::Effect(Box::new(row_ty(fields_view(fields@), Ty::EmptyRow))),
    {
        Type::poly_effect(fields, Type::empty_row())
    }

    /// The effect with the effects `fields` and those of `rest`.
    pub fn poly_effect(fields: Vec<Field>, rest: ArcType) -> (res: ArcType)
        ensures
            res@ == Ty::Effect(Box::new(row_ty(fields_view(fields@), rest@))),
    {
        ArcType::new(Type::Effect(Type::extend_row(fields, rest)))
    }

    /// The tuple of `elems`, a record with the fields `_0`, `_1` and so on.
    pub fn tuple(elems: Vec<ArcType>) -> (res: ArcType)
        ensures
            res@ == record_ty(Seq::empty(), tuple_fields(types_view(elems@)), Ty::EmptyRow),
    {
        ArcType::new(Type::tuple_(elems))
    }

    /// The tuple of `elems`, a record with the fields `_0`, `_1` and so on.
    pub fn tuple_(elems: Vec<ArcType>) -> (res: Type)
        ensures
            type_view(res) == record_ty(
                Seq::empty(),
                tuple_fields(types_view(elems@)),
                Ty::EmptyRow,
            ),
    {
        let mut fields: Vec<Field> = Vec::new();
        let mut i: usize = 0;
        while i < elems.len()
            invariant
                i <= elems@.len(),
                fields@.len() == i,
                forall|j: int|
                    0 <= j < i ==> (#[trigger] fields@[j]).name@ == tuple_field_name(j as nat)
                        && fields@[j].typ == elems@[j],
            decreases elems@.len() - i,
        {
            let name = join("_", decimal_string(i as u64).as_str());
            fields.push(Field { name: Symbol::new(name), typ: elems[i].clone() });
            i += 1;
        }
        assert(fields_view(fields@) =~= tuple_fields(types_view(elems@)));
        Type::Record(Type::extend_row(fields, Type::empty_row()))
    }

    /// The record with the associated types `types` and the fields `fields`.
    pub fn record(types: Vec<TypeField>, fields: Vec<Field>) -> (res: ArcType)
        ensures
            res@ == record_ty(type_fields_view(types@), fields_view(fields@), Ty::EmptyRow),
    {
        Type::poly_record(types, fields, Type::empty_row())
    }

    /// The record with the associated types `types`, the fields `fields` and those of `rest`.
    pub fn poly_record(types: Vec<TypeField>, fields: Vec<Field>, rest: ArcType) -> (res: ArcType)
        ensures
            res@ == record_ty(type_fields_view(types@), fields_view(fields@), rest@),
    {
        ArcType::new(Type::Record(Type::extend_full_row(types, fields, rest)))
    }

    /// The row `rest` extended by the associated types `types` and the fields `fields`.
    pub fn extend_full_row(types: Vec<TypeField>, fields: Vec<Field>, rest: ArcType) -> (res:
        ArcType)
        ensures
            res@ == type_row_ty(type_fields_view(types@), row_ty(fields_view(fields@), rest@)),
    {
        Type::extend_type_row(types, Type::extend_row(fields, rest))
    }

    /// The row `rest` extended by `fields`.
    pub fn extend_row(fields: Vec<Field>, rest: ArcType) -> (res: ArcType)
        ensures
            res@ == row_ty(fields_view(fields@), rest@),
    {
        if fields.len() == 0 {
            rest
        } else {
            ArcType::new(Type::ExtendRow { fields, rest })
        }
    }

    /// The row `rest` extended by the associated types `types`.
    pub fn extend_type_row(types: Vec<TypeField>, rest: ArcType) -> (res: ArcType)
        ensures
            res@ == type_row_ty(type_fields_view(types@), rest@),
    {
        if types.len() == 0 {
            rest
        } else {
            ArcType::new(Type::ExtendTypeRow { types, rest })
        }
    }

    pub fn empty_row() -> (res: ArcType)
        ensures
            res@ == Ty::EmptyRow,
    {
        ArcType::new(Type::EmptyRow)
    }

    /// A function from `args` to `ret`.
    pub fn function(args: Vec<ArcType>, ret: ArcType) -> (res: ArcType)
        ensures
            res@ == function_ty(ArgType::Explicit, types_view(args@), ret@),
    {
        Type::function_type(ArgType::Explicit, args, ret)
    }

    /// A function from the implicit arguments `args` to `ret`.
    pub fn function_implicit(args: Vec<ArcType>, ret: ArcType) -> (res: ArcType)
        ensures
            res@ == function_ty(ArgType::Implicit, types_view(args@), ret@),
    {
        Type::function_type(ArgType::Implicit, args, ret)
    }

    /// A function type from `args` to `ret`, one argument at a time.
    pub fn function_type(arg_type: ArgType, args: Vec<ArcType>, ret: ArcType) -> (res: ArcType)
        ensures
            res@ == function_ty(arg_type, types_view(args@), ret@),
    {
        let mut body = ret;
        let mut i: usize = args.len();
        let ghost all = types_view(args@);
        assert(all.subrange(0, i as int) =~= all);
        assert(all.skip(i as int) =~= Seq::<Ty>::empty());
        while i > 0
            invariant
                i <= args@.len(),
                all == types_view(args@),
                body@ == function_ty(arg_type, all.skip(i as int), ret@),
            decreases i,
        {
            i -= 1;
            body = ArcType::new(Type::Function(arg_type, args[i].clone(), body));
            assert(all.skip(i as int).drop_first() =~= all.skip(i + 1));
        }
        assert(all.skip(0) =~= all);
        body
    }

    pub fn generic(typ: Generic) -> (res: ArcType)
        ensures
            res@ == Ty::Generic(typ@),
    {
        ArcType::new(Type::Generic(typ))
    }

    pub fn skolem(typ: Skolem) -> (res: ArcType)
        ensures
            res@ == Ty::Skolem(typ@),
    {
        ArcType::new(Type::Skolem(typ))
    }

    pub fn variable(typ: TypeVariable) -> (res: ArcType)
        ensures
            res@ == Ty::Variable(typ),
    {
        ArcType::new(Type::Variable(typ))
    }

    /// The alias `name`, with parameters `args`, of `typ`.
    pub fn alias(name: Symbol, args: Vec<Generic>, typ: ArcType) -> (res: ArcType)
        ensures
            res@ == alias_ty(name@, generics_view(args@), typ@, false),
    {
        Type::alias_implicit(name, args, typ, false)
    }

    /// The alias `name`, with parameters `args`, of `typ`, implicit or not.
    pub fn alias_implicit(
        name: Symbol,
        args: Vec<Generic>,
        typ: ArcType,
        is_implicit: bool,
    ) -> (res: ArcType)
        ensures
            res@ == alias_ty(name@, generics_view(args@), typ@, is_implicit),
    {
        let ghost data = AliasDataTy {
            name: name@,
            params: generics_view(args@),
            typ: typ@,
            is_implicit,
        };
        let group = vec![AliasData { name, args, typ, is_implicit }];
        assert(group_view(group@) =~= seq![data]);
        ArcType::new(Type::Alias(AliasRef { index: 0, group: Arc::new(group) }))
    }

    pub fn ident(id: Symbol) -> (res: ArcType)
        ensures
            res@ == Ty::Ident(id@),
    {
        ArcType::new(Type::Ident(id))
    }

    pub fn projection(id: Vec<Symbol>) -> (res: ArcType)
        ensures
            res@ == Ty::Projection(symbols_view(id@)),
    {
        ArcType::new(Type::Projection(id))
    }

    pub fn function_builtin() -> (res: ArcType)
        ensures
            res@ == Ty::Builtin(BuiltinType::Function),
    {
        Type::builtin(BuiltinType::Function)
    }

    pub fn string() -> (res: ArcType)
        ensures
            res@ == Ty::Builtin(BuiltinType::String),
    {
        Type::builtin(BuiltinType::String)
    }

    pub fn char() -> (res: ArcType)
        ensures
            res@ == Ty::Builtin(BuiltinType::Char),
    {
        Type::builtin(BuiltinType::Char)
    }

    pub fn byte() -> (res: ArcType)
        ensures
            res@ == Ty::Builtin(BuiltinType::Byte),
    {
        Type::builtin(BuiltinType::Byte)
    }

    pub fn int_() -> (res: ArcType)
        ensures
            res@ == Ty::Builtin(BuiltinType::Int),
    {
        Type::builtin(BuiltinType::Int)
    }

    pub fn float() -> (res: ArcType)
        ensures
            res@ == Ty::Builtin(BuiltinType::Float),
    {
        Type::builtin(BuiltinType::Float)
    }

    /// The empty record.
    pub fn unit() -> (res: ArcType)
        ensures
            res@ == Ty::Record(Box::new(Ty::EmptyRow)),
    {
        Type::record(Vec::new(), Vec::new())
    }
}

} // verus!
