//! Types that are kept so that they are made only once.

use vstd::prelude::*;
use crate::laws::{same_as_itself, valid};
use crate::types::model::{same_type, Ty};
use crate::types::query::{preorder, refs_view, walk_type};
use crate::types::{
    fields_view, function_ty, record_ty, row_ty, tuple_fields, type_fields_view, type_view,
    types_view, Alias, AliasRef, ArcType, ArgType, BuiltinType, Field, Generic, Type, TypeField,
    TypeVariable, app_ty, generics_view, clone_generics,
};

verus! {

/// The types without parts.
pub struct TypeCache {
    hole: ArcType,
    opaque: ArcType,
    error: ArcType,
    int: ArcType,
    byte: ArcType,
    float: ArcType,
    string: ArcType,
    char: ArcType,
    function_builtin: ArcType,
    array_builtin: ArcType,
    unit: ArcType,
    empty_row: ArcType,
}

impl TypeCache {
    #[verifier::type_invariant]
    closed spec fn wf(self) -> bool {
        &&& self.hole@ == Ty::Hole
        &&& self.opaque@ == Ty::Opaque
        &&& self.error@ == Ty::Error
        &&& self.int@ == Ty::Builtin(BuiltinType::Int)
        &&& self.byte@ == Ty::Builtin(BuiltinType::Byte)
        &&& self.float@ == Ty::Builtin(BuiltinType::Float)
        &&& self.string@ == Ty::Builtin(BuiltinType::String)
        &&& self.char@ == Ty::Builtin(BuiltinType::Char)
        &&& self.function_builtin@ == Ty::Builtin(BuiltinType::Function)
        &&& self.array_builtin@ == Ty::Builtin(BuiltinType::Array)
        &&& self.unit@ == Ty::Record(Box::new(Ty::EmptyRow))
        &&& self.empty_row@ == Ty::EmptyRow
    }

    pub fn new() -> (res: TypeCache) {
        TypeCache {
            hole: Type::hole(),
            opaque: Type::opaque(),
            error: Type::error(),
            int: Type::int_(),
            byte: Type::byte(),
            float: Type::float(),
            string: Type::string(),
            char: Type::char(),
            function_builtin: Type::builtin(BuiltinType::Function),
            array_builtin: Type::array_builtin(),
            unit: Type::unit(),
            empty_row: Type::empty_row(),
        }
    }

    pub fn hole(&self) -> (res: ArcType)
        ensures
            res@ == Ty::Hole,
    {
        proof {
            use_type_invariant(self);
        }
        self.hole.clone()
    }

    pub fn opaque(&self) -> (res: ArcType)
        ensures
            res@ == Ty::Opaque,
    {
        proof {
            use_type_invariant(self);
        }
        self.opaque.clone()
    }

    pub fn error(&self) -> (res: ArcType)
        ensures
            res@ == Ty::Error,
    {
        proof {
            use_type_invariant(self);
        }
        self.error.clone()
    }

    pub fn int_(&self) -> (res: ArcType)
        ensures
            res@ == Ty::Builtin(BuiltinType::Int),
    {
        proof {
            use_type_invariant(self);
        }
        self.int.clone()
    }

    pub fn byte(&self) -> (res: ArcType)
        ensures
            res@ == Ty::Builtin(BuiltinType::Byte),
    {
        proof {
            use_type_invariant(self);
        }
        self.byte.clone()
    }

    pub fn float(&self) -> (res: ArcType)
        ensures
            res@ == Ty::Builtin(BuiltinType::Float),
    {
        proof {
            use_type_invariant(self);
        }
        self.float.clone()
    }

    pub fn string(&self) -> (res: ArcType)
        ensures
            res@ == Ty::Builtin(BuiltinType::String),
    {
        proof {
            use_type_invariant(self);
        }
        self.string.clone()
    }

    pub fn char(&self) -> (res: ArcType)
        ensures
            res@ == Ty::Builtin(BuiltinType::Char),
    {
        proof {
            use_type_invariant(self);
        }
        self.char.clone()
    }

    pub fn function_builtin(&self) -> (res: ArcType)
        ensures
            res@ == Ty::Builtin(BuiltinType::Function),
    {
        proof {
            use_type_invariant(self);
        }
        self.function_builtin.clone()
    }

    pub fn array_builtin(&self) -> (res: ArcType)
        ensures
            res@ == Ty::Builtin(BuiltinType::Array),
    {
        proof {
            use_type_invariant(self);
        }
        self.array_builtin.clone()
    }

    pub fn unit(&self) -> (res: ArcType)
        ensures
            res@ == Ty::Record(Box::new(Ty::EmptyRow)),
    {
        proof {
            use_type_invariant(self);
        }
        self.unit.clone()
    }

    pub fn empty_row(&self) -> (res: ArcType)
        ensures
            res@ == Ty::EmptyRow,
    {
        proof {
            use_type_invariant(self);
        }
        self.empty_row.clone()
    }

    pub fn function(&self, args: Vec<ArcType>, ret: ArcType) -> (res: ArcType)
        ensures
            res@ == function_ty(ArgType::Explicit, types_view(args@), ret@),
    {
        Type::function(args, ret)
    }

    pub fn function_implicit(&self, args: Vec<ArcType>, ret: ArcType) -> (res: ArcType)
        ensures
            res@ == function_ty(ArgType::Implicit, types_view(args@), ret@),
    {
        Type::function_implicit(args, ret)
    }

    /// A tuple of `elems`. Without elements it is the unit type.
    pub fn tuple(&self, elems: Vec<ArcType>) -> (res: ArcType)
        ensures
            res@ == record_ty(Seq::empty(), tuple_fields(types_view(elems@)), Ty::EmptyRow),
    {
        Type::tuple(elems)
    }

    pub fn variant(&self, fields: Vec<Field>) -> (res: ArcType)
        ensures
            res@ == Ty::Variant(Box::new(row_ty(fields_view(fields@), Ty::EmptyRow))),
    {
        self.poly_variant(fields, self.empty_row())
    }

    pub fn poly_variant(&self, fields: Vec<Field>, rest: ArcType) -> (res: ArcType)
        ensures
            res@ == Ty::Variant(Box::new(row_ty(fields_view(fields@), rest@))),
    {
        Type::poly_variant(fields, rest)
    }

    pub fn record(&self, types: Vec<TypeField>, fields: Vec<Field>) -> (res: ArcType)
        ensures
            res@ == record_ty(type_fields_view(types@), fields_view(fields@), Ty::EmptyRow),
    {
        Type::poly_record(types, fields, self.empty_row())
    }

    pub fn effect(&self, fields: Vec<Field>) -> (res: ArcType)
        ensures
            res@ == Ty::Effect(Box::new(row_ty(fields_view(fields@), Ty::EmptyRow))),
    {
        self.poly_effect(fields, self.empty_row())
    }

    pub fn poly_effect(&self, fields: Vec<Field>, rest: ArcType) -> (res: ArcType)
        ensures
            res@ == Ty::Effect(Box::new(row_ty(fields_view(fields@), rest@))),
    {
        Type::poly_effect(fields, rest)
    }

    pub fn array(&self, typ: ArcType) -> (res: ArcType)
        ensures
            res@ == app_ty(Ty::Builtin(BuiltinType::Array), seq![typ@]),
    {
        let args = vec![typ];
        assert(types_view(args@) =~= seq![typ@]);
        Type::app(self.array_builtin(), args)
    }

    pub fn builtin_type(&self, typ: BuiltinType) -> (res: ArcType)
        ensures
            res@ == Ty::Builtin(typ),
    {
        match typ {
            BuiltinType::String => self.string(),
            BuiltinType::Byte => self.byte(),
            BuiltinType::Char => self.char(),
            BuiltinType::Int => self.int_(),
            BuiltinType::Float => self.float(),
            BuiltinType::Array => self.array_builtin(),
            BuiltinType::Function => self.function_builtin(),
        }
    }
}

/// Makes each type anew.
pub struct NullInterner;

impl NullInterner {
    pub fn intern(&mut self, typ: Type) -> (res: ArcType)
        ensures
            res@ == type_view(typ),
    {
        ArcType::new(typ)
    }
}

/// Makes each type only once.
pub struct Interner {
    set: Vec<ArcType>,
}

/// Where a type that is the same as `t` stands in `set` from `i` on.
pub open spec fn interned_at(set: Seq<Ty>, t: Ty, i: int) -> Option<int>
    decreases set.len() - i,
{
    if i < 0 || i >= set.len() {
        None
    } else if same_type(set[i], t) {
        Some(i)
    } else {
        interned_at(set, t, i + 1)
    }
}

impl Interner {
    /// The types that were made, in order.
    pub closed spec fn set(&self) -> Seq<Ty> {
        types_view(self.set@)
    }

    /// An interner that has the types without parts.
    pub fn new() -> (res: Interner)
        ensures
            res.set() == seq![
                Ty::Hole,
                Ty::Opaque,
                Ty::Error,
                Ty::Builtin(BuiltinType::Int),
                Ty::Builtin(BuiltinType::Byte),
                Ty::Builtin(BuiltinType::Float),
                Ty::Builtin(BuiltinType::String),
                Ty::Builtin(BuiltinType::Char),
                Ty::Builtin(BuiltinType::Function),
                Ty::Builtin(BuiltinType::Array),
                Ty::Record(Box::new(Ty::EmptyRow)),
                Ty::EmptyRow,
            ],
    {
        let cache = TypeCache::new();
        let set = vec![
            cache.hole(),
            cache.opaque(),
            cache.error(),
            cache.int_(),
            cache.byte(),
            cache.float(),
            cache.string(),
            cache.char(),
            cache.function_builtin(),
            cache.array_builtin(),
            cache.unit(),
            cache.empty_row(),
        ];
        let res = Interner { set };
        assert(res.set() =~= seq![
            Ty::Hole,
            Ty::Opaque,
            Ty::Error,
            Ty::Builtin(BuiltinType::Int),
            Ty::Builtin(BuiltinType::Byte),
            Ty::Builtin(BuiltinType::Float),
            Ty::Builtin(BuiltinType::String),
            Ty::Builtin(BuiltinType::Char),
            Ty::Builtin(BuiltinType::Function),
            Ty::Builtin(BuiltinType::Array),
            Ty::Record(Box::new(Ty::EmptyRow)),
            Ty::EmptyRow,
        ]);
        res
    }

    /// The type `typ`: the one that was made before, if there is one.
    pub fn intern(&mut self, typ: Type) -> (res: ArcType)
        ensures
            match interned_at(old(self).set(), type_view(typ), 0) {
                Some(i) => final(self).set() == old(self).set() && res@ == old(self).set()[i],
                None => final(self).set() == old(self).set().push(type_view(typ)) && res@
                    == type_view(typ),
            },
    {
        let new = ArcType::new(typ);
        let mut i: usize = 0;
        while i < self.set.len()
            invariant
                i <= self.set@.len(),
                self.set() == old(self).set(),
                new@ == type_view(typ),
                interned_at(self.set(), new@, 0) == interned_at(self.set(), new@, i as int),
            decreases self.set@.len() - i,
        {
            assert(self.set()[i as int] == self.set@[i as int]@);
            if self.set[i].same(&new) {
                return self.set[i].clone();
            }
            i += 1;
        }
        self.set.push(new.clone());
        assert(self.set() =~= old(self).set().push(new@));
        new
    }
}

/// A type that was interned is not made again.
pub proof fn interned_once(set: Seq<Ty>, t: Ty, i: int)
    requires
        0 <= i <= set.len(),
        interned_at(set, t, i) is None,
        valid(t),
    ensures
        interned_at(set.push(t), t, i) == Some(set.len() as int),
    decreases set.len() - i,
{
    same_as_itself(t);
    if i < set.len() {
        assert(set.push(t)[i] == set[i]);
        interned_once(set, t, i + 1);
    }
}

impl ArcType {
    /// The variable that the type is.
    pub fn as_variable(&self) -> (res: Option<&TypeVariable>)
        ensures
            match res {
                Some(var) => self@ == Ty::Variable(*var),
                None => !(self@ is Variable),
            },
    {
        match self.as_type() {
            Type::Variable(var) => Some(var),
            _ => None,
        }
    }
}

/// `accs` are what `f` made of the types in `types`, one after the other.
pub open spec fn folds<A, F: Fn(&ArcType, A) -> A>(
    types: Seq<&ArcType>,
    f: F,
    accs: Seq<A>,
) -> bool {
    accs.len() == types.len() + 1 && forall|i: int|
        0 <= i < types.len() ==> call_ensures(f, (#[trigger] types[i], accs[i]), accs[i + 1])
}

/// What `f` makes of `typ` and of all types in it, each before the types in it, starting from `a`.
pub fn fold_type<A, F: Fn(&ArcType, A) -> A>(typ: &ArcType, f: F, a: A) -> (res: A)
    requires
        forall|t: &ArcType, a: A| #[trigger] call_requires(f, (t, a)),
    ensures
        exists|types: Seq<&ArcType>, accs: Seq<A>| #[trigger]
            folds(types, f, accs) && refs_view(types) == preorder(typ@) && accs[0] == a
                && accs.last() == res,
{
    let types = walk_type(typ);
    let ghost mut accs: Seq<A> = seq![a];
    let mut acc = a;
    let mut i: usize = 0;
    while i < types.len()
        invariant
            i <= types@.len(),
            forall|t: &ArcType, a: A| #[trigger] call_requires(f, (t, a)),
            folds(types@.take(i as int), f, accs),
            accs[0] == a,
            accs.last() == acc,
        decreases types@.len() - i,
    {
        let ghost before = acc;
        acc = f(types[i], acc);
        proof {
            let old_accs = accs;
            accs = accs.push(acc);
            assert forall|j: int| 0 <= j < i + 1 implies call_ensures(
                f,
                (#[trigger] types@.take(i + 1)[j], accs[j]),
                accs[j + 1],
            ) by {
                if j < i {
                    assert(types@.take(i as int)[j] == types@.take(i + 1)[j]);
                    assert(accs[j] == old_accs[j]);
                    assert(accs[j + 1] == old_accs[j + 1]);
                } else {
                    assert(accs[j] == before);
                }
            }
        }
        i += 1;
    }
    assert(types@.take(i as int) =~= types@);
    assert(folds(types@, f, accs));
    acc
}

/// The parameters of a canonical alias type, the alias and the type behind it.
pub enum Unpacked {
    /// The alias that is applied
    Alias(crate::types::model::AliasTy),
    /// A type that applies none
    Own(Ty),
}

/// What is inside the quantifiers of `t`.
pub open spec fn unpacked(t: Ty) -> (Seq<crate::types::model::GenericTy>, Unpacked)
    decreases t,
{
    match t {
        Ty::App(f, _) => match *f {
            Ty::Alias(alias) => (Seq::empty(), Unpacked::Alias(alias)),
            other => (Seq::empty(), Unpacked::Own(other)),
        },
        Ty::Alias(alias) => (Seq::empty(), Unpacked::Alias(alias)),
        Ty::Forall(params, inner) => (params + unpacked(*inner).0, unpacked(*inner).1),
        _ => (Seq::empty(), Unpacked::Own(t)),
    }
}

impl Alias {
    /// The parameters of `canonical_alias_type`, the alias that it applies, which is `alias` if there is
    /// none, and the type behind it: what `un_alias` makes of the alias, or the type itself.
    pub fn unpack_canonical_alias<F: Fn(&AliasRef) -> ArcType>(
        alias: &AliasRef,
        canonical_alias_type: &ArcType,
        un_alias: F,
    ) -> (res: (Vec<Generic>, AliasRef, ArcType))
        requires
            forall|alias: &AliasRef| #[trigger] call_requires(un_alias, (alias,)),
        ensures
            generics_view(res.0@) == unpacked(canonical_alias_type@).0,
            match unpacked(canonical_alias_type@).1 {
                Unpacked::Alias(applied) => res.1@ == applied && exists|a: &AliasRef|
                    a@ == applied && #[trigger] call_ensures(un_alias, (a,), res.2),
                Unpacked::Own(t) => res.1@ == alias@ && res.2@ == t,
            },
        decreases canonical_alias_type@,
    {
        let none: Vec<Generic> = Vec::new();
        assert(generics_view(none@) =~= Seq::empty());
        proof {
            crate::types::model::parts_decrease(canonical_alias_type@);
        }
        match canonical_alias_type.as_type() {
            Type::App(func, _) => match func.as_type() {
                Type::Alias(applied) => (none, applied.clone(), un_alias(applied)),
                _ => (none, alias.clone(), func.clone()),
            },
            Type::Alias(applied) => (none, applied.clone(), un_alias(applied)),
            Type::Forall(params, typ) => {
                let (more, canonical, inner) = Alias::unpack_canonical_alias(alias, typ, un_alias);
                let mut all = clone_generics(params);
                let ghost start = generics_view(params@);
                let mut i: usize = 0;
                assert(generics_view(more@).take(0) =~= Seq::empty());
                assert(generics_view(all@) =~= start + generics_view(more@).take(0));
                while i < more.len()
                    invariant
                        i <= more@.len(),
                        generics_view(all@) == start + generics_view(more@).take(i as int),
                    decreases more@.len() - i,
                {
                    let ghost before = all@;
                    all.push(more[i].clone());
                    assert(generics_view(all@) =~= generics_view(before).push(more@[i as int]@));
                    assert(generics_view(more@).take(i + 1) =~= generics_view(more@).take(
                        i as int,
                    ).push(more@[i as int]@));
                    assert(generics_view(all@) =~= start + generics_view(more@).take(i + 1));
                    i += 1;
                }
                assert(generics_view(more@).take(i as int) =~= generics_view(more@));
                (all, canonical, inner)
            },
            _ => (none, alias.clone(), canonical_alias_type.clone()),
        }
    }
}

/// The built in type that is written as `text`.
pub open spec fn builtin_named(text: Seq<char>) -> Option<BuiltinType> {
    if text == "Int"@ {
        Some(BuiltinType::Int)
    } else if text == "Byte"@ {
        Some(BuiltinType::Byte)
    } else if text == "Float"@ {
        Some(BuiltinType::Float)
    } else if text == "String"@ {
        Some(BuiltinType::String)
    } else if text == "Char"@ {
        Some(BuiltinType::Char)
    } else if text == "Array"@ {
        Some(BuiltinType::Array)
    } else if text == "->"@ {
        Some(BuiltinType::Function)
    } else {
        None
    }
}

impl BuiltinType {
    /// The built in type that is written as `x`.
    pub fn from_str(x: &str) -> (res: Result<BuiltinType, ()>)
        ensures
            match builtin_named(x@) {
                Some(typ) => res == Ok::<BuiltinType, ()>(typ),
                None => res is Err,
            },
    {
        let x = x.to_owned();
        if x == "Int".to_owned() {
            Ok(BuiltinType::Int)
        } else if x == "Byte".to_owned() {
            Ok(BuiltinType::Byte)
        } else if x == "Float".to_owned() {
            Ok(BuiltinType::Float)
        } else if x == "String".to_owned() {
            Ok(BuiltinType::String)
        } else if x == "Char".to_owned() {
            Ok(BuiltinType::Char)
        } else if x == "Array".to_owned() {
            Ok(BuiltinType::Array)
        } else if x == "->".to_owned() {
            Ok(BuiltinType::Function)
        } else {
            Err(())
        }
    }
}

/// A built in type is read back from its text.
pub proof fn builtin_is_read_back(typ: BuiltinType)
    ensures
        builtin_named(typ.text()) == Some(typ),
{
    reveal_strlit("Int");
    reveal_strlit("Byte");
    reveal_strlit("Float");
    reveal_strlit("String");
    reveal_strlit("Char");
    reveal_strlit("Array");
    reveal_strlit("->");
    let (b, s, c, i, f, a) = ("Byte"@, "String"@, "Char"@, "Int"@, "Float"@, "Array"@);
    assert(b[0] == 'B' && s[0] == 'S' && c[0] == 'C' && i[0] == 'I' && f[0] == 'F' && a[0] == 'A');
    assert("->"@[0] == '-');
}

} // verus!
