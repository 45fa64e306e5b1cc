//! Questions about a type.

use vstd::prelude::*;
use crate::text::chars;
use crate::kind::{applied_kind, apply_kind, ArcKind, Kind, KindCache};
use crate::symbol::Symbol;
use crate::types::flags::{has_flag, NEEDS_GENERALIZE};
use crate::types::model::{parts_decrease, AliasTy, FieldTy, GenericTy, Ty};
use crate::types::rows::{row_fields, row_iter, type_field_iter, type_fields};
use crate::types::{
    fields_view, generics_view, type_fields_view, types_view, AliasData,
    AliasRef, ArcType, ArgType, BuiltinType, Generic, Type,
};

verus! {

/// `t` is an application of the function type constructor.
pub open spec fn applies_function(t: Ty) -> bool {
    t matches Ty::App(f, _) && *f == Ty::Builtin(BuiltinType::Function)
}

/// `t` applies a function type constructor without arguments to a single argument, so that the
/// type of the argument is missing.
pub open spec fn lacks_argument(t: Ty) -> bool {
    &&& t is App
    &&& t->App_1.len() == 1
    &&& applies_function(*t->App_0)
    &&& (*t->App_0)->App_1.len() == 0
}

/// How `t` takes its argument, the type of the argument and that of the result, if `t` is a function.
pub open spec fn function_parts(t: Ty) -> Option<(ArgType, Ty, Ty)> {
    match t {
        Ty::Function(arg_type, arg, ret) => Some((arg_type, *arg, *ret)),
        Ty::App(f, args) => if args.len() == 2 && *f == Ty::Builtin(BuiltinType::Function) {
            Some((ArgType::Explicit, args[0], args[1]))
        } else if args.len() == 1 && applies_function(*f) {
            Some((ArgType::Explicit, (*f)->App_1[0], args[0]))
        } else {
            None
        },
        _ => None,
    }
}

/// The result of a function is smaller than the function.
pub proof fn function_parts_decrease(t: Ty)
    requires
        function_parts(t) is Some,
        !lacks_argument(t),
    ensures
        decreases_to!(t => (function_parts(t)->0).1),
        decreases_to!(t => (function_parts(t)->0).2),
{
    match t {
        Ty::App(f, args) => {
            assert(decreases_to!(t => *f));
            assert(decreases_to!(t => args));
            if args.len() == 2 {
                assert(decreases_to!(args => args[0]));
                assert(decreases_to!(args => args[1]));
            } else {
                assert(decreases_to!(args => args[0]));
                let args2 = (*f)->App_1;
                assert(decreases_to!(*f => args2));
                assert(decreases_to!(args2 => args2[0]));
            }
        },
        _ => {},
    }
}

/// No function in the chain of results of `t` lacks the type of its argument.
pub open spec fn has_arguments(t: Ty) -> bool
    decreases t,
{
    &&& !lacks_argument(t)
    &&& match t {
        Ty::Function(_, _, ret) => has_arguments(*ret),
        Ty::App(f, args) => if args.len() == 2 && *f == Ty::Builtin(BuiltinType::Function) {
            has_arguments(args[1])
        } else if args.len() == 1 && function_parts(t) is Some {
            has_arguments(args[0])
        } else {
            true
        },
        _ => true,
    }
}

/// The types of the arguments of the function `t`.
pub open spec fn function_args(t: Ty) -> Seq<Ty>
    decreases t,
{
    match t {
        Ty::Function(_, arg, ret) => seq![*arg] + function_args(*ret),
        Ty::App(f, args) => if args.len() == 2 && *f == Ty::Builtin(BuiltinType::Function) {
            seq![args[0]] + function_args(args[1])
        } else if args.len() == 1 && function_parts(t) is Some {
            seq![(*f)->App_1[0]] + function_args(args[0])
        } else {
            Seq::empty()
        },
        _ => Seq::empty(),
    }
}

/// The result of the function `t` applied to all its arguments.
pub open spec fn function_result(t: Ty) -> Ty
    decreases t,
{
    match t {
        Ty::Function(_, arg, ret) => function_result(*ret),
        Ty::App(f, args) => if args.len() == 2 && *f == Ty::Builtin(BuiltinType::Function) {
            function_result(args[1])
        } else if args.len() == 1 && function_parts(t) is Some {
            function_result(args[0])
        } else {
            t
        },
        _ => t,
    }
}

/// The types of the leading implicit arguments of `t`.
pub open spec fn implicit_args(t: Ty) -> Seq<Ty>
    decreases t,
{
    match t {
        Ty::Function(ArgType::Implicit, arg, ret) => seq![*arg] + implicit_args(*ret),
        _ => Seq::empty(),
    }
}

/// `t` without its leading implicit arguments.
pub open spec fn without_implicit_args(t: Ty) -> Ty
    decreases t,
{
    match t {
        Ty::Function(ArgType::Implicit, _, ret) => without_implicit_args(*ret),
        _ => t,
    }
}

/// `t` without its leading quantifiers and implicit arguments.
pub open spec fn without_forall_and_implicit_args(t: Ty) -> Ty
    decreases t,
{
    match t {
        Ty::Function(ArgType::Implicit, _, ret) => without_forall_and_implicit_args(*ret),
        Ty::Forall(_, inner) => without_forall_and_implicit_args(*inner),
        _ => t,
    }
}

/// What is applied in `t`.
pub open spec fn spine(t: Ty) -> Ty
    decreases t,
{
    match t {
        Ty::App(f, _) => spine(*f),
        _ => t,
    }
}

/// All the arguments that what `t` applies is applied to.
pub open spec fn applied_args(t: Ty) -> Seq<Ty>
    decreases t,
{
    match t {
        Ty::App(f, args) => applied_args(*f) + args,
        _ => Seq::empty(),
    }
}

/// The arguments in `t`, those of a function type included.
pub open spec fn app_args(t: Ty) -> Seq<Ty>
    decreases t,
{
    match t {
        Ty::App(f, args) => app_args(*f) + args,
        Ty::Function(_, arg, ret) => seq![*arg, *ret],
        _ => Seq::empty(),
    }
}

/// What is applied in `t`; `None` stands for the function type constructor.
pub open spec fn app_head(t: Ty) -> Option<Ty>
    decreases t,
{
    match t {
        Ty::App(f, _) => app_head(*f),
        Ty::Function(..) => None,
        _ => Some(t),
    }
}

/// The name that `t` is known by where it is an alias or an identifier, applied or not.
pub open spec fn alias_name(t: Ty) -> Option<Seq<char>>
    decreases t,
{
    match t {
        Ty::App(f, _) => alias_name(*f),
        Ty::Ident(id) => Some(id),
        Ty::Alias(alias) => Some(alias.data().name),
        _ => None,
    }
}

/// The alias that is applied in `t`.
pub open spec fn applied_alias_of(t: Ty) -> Option<AliasTy>
    decreases t,
{
    match t {
        Ty::App(f, _) => applied_alias_of(*f),
        Ty::Alias(alias) => Some(alias),
        _ => None,
    }
}

/// The name of `t`: `Option` for `Option a`, `Int` for `Int`.
pub open spec fn name_of(t: Ty) -> Option<Seq<char>> {
    match alias_name(t) {
        Some(name) => Some(name),
        None => match t {
            Ty::Function(..) => Some(BuiltinType::Function.text()),
            Ty::App(f, _) => match *f {
                Ty::Builtin(b) => Some(b.text()),
                _ => None,
            },
            Ty::Builtin(b) => Some(b.text()),
            Ty::Effect(_) => Some("Effect"@),
            _ => None,
        },
    }
}

/// Whether `t` is a record, or the row of one, whose fields are all known.
pub open spec fn non_polymorphic_record(t: Ty) -> bool
    decreases t,
{
    match t {
        Ty::Record(row) => non_polymorphic_record(*row),
        Ty::ExtendRow(_, row) => non_polymorphic_record(*row),
        Ty::ExtendTypeRow(_, row) => non_polymorphic_record(*row),
        Ty::EmptyRow => true,
        _ => false,
    }
}

/// `kind` as the result of a constructor with the parameters `params`, the first of them innermost.
pub open spec fn kind_with_params(kind: Kind, params: Seq<GenericTy>) -> Kind
    decreases params.len(),
{
    if params.len() == 0 {
        kind
    } else {
        Kind::Function(
            params.last().kind,
            std::sync::Arc::new(kind_with_params(kind, params.drop_last())),
        )
    }
}

/// `kind` as the result of a constructor that takes the parameters `params` in order.
pub open spec fn constructor_kind(kind: Kind, params: Seq<GenericTy>) -> Kind
    decreases params.len(),
{
    if params.len() == 0 {
        kind
    } else {
        Kind::Function(
            params[0].kind,
            std::sync::Arc::new(constructor_kind(kind, params.drop_first())),
        )
    }
}

/// The kind of `t` applied to `args` arguments.
pub open spec fn kind_of(t: Ty, args: nat) -> Kind
    decreases t,
{
    match t {
        Ty::Function(..) => applied_kind(Kind::Type, args),
        Ty::App(f, f_args) => applied_kind(kind_of(*f, f_args.len()), args),
        Ty::Error => applied_kind(Kind::Error, args),
        Ty::Hole => applied_kind(Kind::Hole, args),
        Ty::Opaque | Ty::Builtin(_) | Ty::Record(_) | Ty::Variant(_) => applied_kind(
            Kind::Type,
            args,
        ),
        Ty::EmptyRow | Ty::ExtendRow(..) | Ty::ExtendTypeRow(..) => applied_kind(Kind::Row, args),
        Ty::Effect(_) => applied_kind(
            Kind::Function(std::sync::Arc::new(Kind::Type), std::sync::Arc::new(Kind::Type)),
            args,
        ),
        Ty::Forall(_, inner) => applied_kind(kind_of(*inner, args), args),
        Ty::Variable(var) => applied_kind(*var.kind, args),
        Ty::Skolem(skolem) => applied_kind(*skolem.kind, args),
        Ty::Generic(gen) => applied_kind(*gen.kind, args),
        Ty::Ident(_) | Ty::Projection(_) => applied_kind(Kind::Type, args),
        Ty::Alias(alias) => if 0 <= alias.index < alias.group.len() {
            let data = alias.group[alias.index];
            if data.params.len() < args {
                kind_of(data.typ, (args - data.params.len()) as nat)
            } else {
                kind_with_params(kind_of(data.typ, 0), data.params.skip(args as int))
            }
        } else {
            Kind::Error
        },
    }
}

/// `t` and all types in it, each before the types in it.
pub open spec fn preorder(t: Ty) -> Seq<Ty>
    decreases t, 0nat,
{
    seq![t] + match t {
        Ty::Function(_, arg, ret) => preorder(*arg) + preorder(*ret),
        Ty::App(f, args) => preorder(*f) + preorder_all(args, args.len()),
        Ty::Forall(_, x) => preorder(*x),
        Ty::Record(x) => preorder(*x),
        Ty::Variant(x) => preorder(*x),
        Ty::Effect(x) => preorder(*x),
        Ty::ExtendRow(fields, rest) => preorder_fields(fields, fields.len()) + preorder(*rest),
        Ty::ExtendTypeRow(types, rest) => preorder_aliased(types, types.len()) + preorder(*rest),
        _ => Seq::empty(),
    }
}

/// The first `n` of `types` and all types in them.
pub open spec fn preorder_all(types: Seq<Ty>, n: nat) -> Seq<Ty>
    decreases types, n,
{
    if n == 0 || n > types.len() {
        Seq::empty()
    } else {
        preorder_all(types, (n - 1) as nat) + preorder(types[n - 1])
    }
}

/// The types of the first `n` of `fields` and all types in them.
pub open spec fn preorder_fields(fields: Seq<FieldTy>, n: nat) -> Seq<Ty>
    decreases fields, n,
{
    if n == 0 || n > fields.len() {
        Seq::empty()
    } else {
        preorder_fields(fields, (n - 1) as nat) + preorder(fields[n - 1].typ)
    }
}

/// The types that the first `n` of the associated types `types` stand for, and all types in them.
pub open spec fn preorder_aliased(types: Seq<FieldTy>, n: nat) -> Seq<Ty>
    decreases types, n,
{
    if n == 0 || n > types.len() {
        Seq::empty()
    } else {
        preorder_aliased(types, (n - 1) as nat) + match types[n - 1].typ {
            Ty::Alias(alias) => if 0 <= alias.index < alias.group.len() {
                preorder(alias.group[alias.index].typ)
            } else {
                Seq::empty()
            },
            _ => Seq::empty(),
        }
    }
}

/// The lowest id of the variables in `types`, or the highest id there is.
pub open spec fn lowest_id(types: Seq<Ty>) -> u32
    decreases types.len(),
{
    if types.len() == 0 {
        u32::MAX
    } else {
        let others = lowest_id(types.drop_last());
        match types.last() {
            Ty::Variable(var) => if var.id < others {
                var.id
            } else {
                others
            },
            _ => others,
        }
    }
}

pub open spec fn refs_view(types: Seq<&ArcType>) -> Seq<Ty> {
    types.map_values(|t: &ArcType| t@)
}

/// A name that is either a symbol or built in.
pub enum SymbolKey {
    Owned(Symbol),
    Ref(&'static str),
}

impl View for SymbolKey {
    type V = Seq<char>;

    open spec fn view(&self) -> Seq<char> {
        match self {
            SymbolKey::Owned(symbol) => symbol@,
            SymbolKey::Ref(name) => name@,
        }
    }
}

impl SymbolKey {
    /// The name as a symbol.
    pub fn symbol(&self) -> (res: Symbol)
        ensures
            res@ == self@,
    {
        match self {
            SymbolKey::Owned(symbol) => symbol.clone(),
            SymbolKey::Ref(name) => Symbol::new((*name).to_owned()),
        }
    }
}

impl PartialEq for SymbolKey {
    fn eq(&self, other: &SymbolKey) -> (res: bool) {
        self.symbol() == other.symbol()
    }
}

impl vstd::std_specs::cmp::PartialEqSpecImpl for SymbolKey {
    open spec fn obeys_eq_spec() -> bool {
        true
    }

    open spec fn eq_spec(&self, other: &SymbolKey) -> bool {
        self@ == other@
    }
}

/// Walks through the arguments of a function.
pub struct ArgIterator<'a> {
    /// The current type being iterated over. After `None` has been returned this is the return
    /// type.
    pub typ: &'a ArcType,
}

/// Starts a walk through the arguments of `typ`.
pub fn arg_iter<'a>(typ: &'a ArcType) -> (res: ArgIterator<'a>)
    ensures
        res.typ == typ,
{
    ArgIterator { typ }
}

/// Starts a walk through the arguments of the constructor type `typ`.
pub fn ctor_args<'a>(typ: &'a ArcType) -> (res: ArgIterator<'a>)
    ensures
        res.typ == typ,
{
    ArgIterator { typ }
}

impl<'a> ArgIterator<'a> {
    /// The type of the next argument.
    pub fn next(&mut self) -> (res: Option<&'a ArcType>)
        requires
            has_arguments(old(self).typ@),
        ensures
            has_arguments(final(self).typ@),
            function_result(final(self).typ@) == function_result(old(self).typ@),
            match res {
                Some(arg) => decreases_to!(old(self).typ@ => final(self).typ@)
                    && function_args(old(self).typ@) == seq![arg@] + function_args(
                    final(self).typ@,
                ),
                None => function_args(old(self).typ@).len() == 0 && final(self).typ
                    == old(self).typ && function_result(old(self).typ@) == old(self).typ@,
            },
    {
        let typ: &'a ArcType = self.typ;
        proof {
            if function_parts(typ@) is Some {
                function_parts_decrease(typ@);
            }
        }
        match typ.as_function() {
            Some((arg, ret)) => {
                self.typ = ret;
                Some(arg)
            },
            None => None,
        }
    }
}

/// Walks through the leading implicit arguments of a function.
pub struct ImplicitArgIterator<'a> {
    /// The current type being iterated over. After `None` has been returned this is the type
    /// without its implicit arguments.
    pub typ: &'a ArcType,
}

/// Starts a walk through the leading implicit arguments of `typ`.
pub fn implicit_arg_iter<'a>(typ: &'a ArcType) -> (res: ImplicitArgIterator<'a>)
    ensures
        res.typ == typ,
{
    ImplicitArgIterator { typ }
}

impl<'a> ImplicitArgIterator<'a> {
    /// The type of the next implicit argument.
    pub fn next(&mut self) -> (res: Option<&'a ArcType>)
        requires
            !lacks_argument(old(self).typ@),
        ensures
            without_implicit_args(final(self).typ@) == without_implicit_args(old(self).typ@),
            match res {
                Some(arg) => decreases_to!(old(self).typ@ => final(self).typ@)
                    && implicit_args(old(self).typ@) == seq![arg@] + implicit_args(
                    final(self).typ@,
                ),
                None => implicit_args(old(self).typ@).len() == 0 && final(self).typ
                    == old(self).typ && without_implicit_args(old(self).typ@) == old(self).typ@,
            },
    {
        let typ: &'a ArcType = self.typ;
        proof {
            if function_parts(typ@) is Some {
                function_parts_decrease(typ@);
            }
        }
        match typ.as_function_with_type() {
            Some((arg_type, arg, ret)) => {
                if arg_type == ArgType::Implicit {
                    self.typ = ret;
                    Some(arg)
                } else {
                    None
                }
            },
            None => None,
        }
    }
}

/// What `typ` applies and all the arguments that it is applied to. `None` stands for the function
/// type constructor.
pub fn split_app<'a>(typ: &'a ArcType) -> (res: (Option<&'a ArcType>, Vec<ArcType>))
    ensures
        types_view(res.1@) == app_args(typ@),
        match res.0 {
            Some(head) => app_head(typ@) == Some(head@),
            None => app_head(typ@) is None,
        },
    decreases typ@,
{
    match typ.as_type() {
        Type::App(f, args) => {
            proof {
                parts_decrease(typ@);
            }
            let (head, mut all) = split_app(f);
            extend_types(&mut all, args);
            (head, all)
        },
        Type::Function(_, arg, ret) => {
            let all = vec![arg.clone(), ret.clone()];
            assert(types_view(all@) =~= seq![arg@, ret@]);
            (None, all)
        },
        _ => {
            let all: Vec<ArcType> = Vec::new();
            assert(types_view(all@) =~= Seq::<Ty>::empty());
            (Some(typ), all)
        },
    }
}

/// Appends `more` to `types`.
pub fn extend_types(types: &mut Vec<ArcType>, more: &Vec<ArcType>)
    ensures
        final(types)@ == old(types)@ + more@,
        types_view(final(types)@) == types_view(old(types)@) + types_view(more@),
{
    let mut i: usize = 0;
    while i < more.len()
        invariant
            i <= more@.len(),
            types@ == old(types)@ + more@.subrange(0, i as int),
        decreases more@.len() - i,
    {
        types.push(more[i].clone());
        assert(more@.subrange(0, i + 1) =~= more@.subrange(0, i as int).push(more@[i as int]));
        assert(types@ =~= old(types)@ + more@.subrange(0, i + 1));
        i += 1;
    }
    assert(more@.subrange(0, i as int) =~= more@);
    assert(types_view(types@) =~= types_view(old(types)@) + types_view(more@));
}

/// `typ` and all types in it, each before the types in it.
pub fn walk_type<'a>(typ: &'a ArcType) -> (res: Vec<&'a ArcType>)
    ensures
        refs_view(res@) == preorder(typ@),
{
    let mut res: Vec<&'a ArcType> = Vec::new();
    walk_into(typ, &mut res);
    assert(refs_view(res@) =~= preorder(typ@));
    res
}

#[verifier::rlimit(30)]
fn walk_into<'a>(typ: &'a ArcType, out: &mut Vec<&'a ArcType>)
    ensures
        refs_view(final(out)@) == refs_view(old(out)@) + preorder(typ@),
    decreases typ@,
{
    out.push(typ);
    let ghost start = refs_view(old(out)@) + seq![typ@];
    proof {
        parts_decrease(typ@);
        assert(refs_view(out@) =~= start);
    }
    match typ.as_type() {
        Type::Function(_, arg, ret) => {
            walk_into(arg, out);
            walk_into(ret, out);
        },
        Type::App(f, args) => {
            walk_into(f, out);
            let ghost all = types_view(args@);
            let mut i: usize = 0;
            while i < args.len()
                invariant
                    i <= args@.len(),
                    all == types_view(args@),
                    decreases_to!(typ@ => all),
                    refs_view(out@) == start + preorder(f@) + preorder_all(all, i as nat),
                decreases args@.len() - i,
            {
                assert(all[i as int] == args@[i as int]@);
                walk_into(&args[i], out);
                i += 1;
                assert(refs_view(out@) =~= start + preorder(f@) + preorder_all(all, i as nat));
            }
        },
        Type::Forall(_, x) | Type::Record(x) | Type::Variant(x) | Type::Effect(x) => {
            walk_into(x, out);
        },
        Type::ExtendRow { fields, rest } => {
            let ghost all = fields_view(fields@);
            let mut i: usize = 0;
            while i < fields.len()
                invariant
                    i <= fields@.len(),
                    all == fields_view(fields@),
                    decreases_to!(typ@ => all),
                    refs_view(out@) == start + preorder_fields(all, i as nat),
                decreases fields@.len() - i,
            {
                assert(all[i as int].typ == fields@[i as int].typ@);
                assert(decreases_to!(all => all[i as int]));
                walk_into(&fields[i].typ, out);
                i += 1;
                assert(refs_view(out@) =~= start + preorder_fields(all, i as nat));
            }
            walk_into(rest, out);
        },
        Type::ExtendTypeRow { types, rest } => {
            let ghost all = type_fields_view(types@);
            let mut i: usize = 0;
            while i < types.len()
                invariant
                    i <= types@.len(),
                    all == type_fields_view(types@),
                    decreases_to!(typ@ => all),
                    refs_view(out@) == start + preorder_aliased(all, i as nat),
                decreases types@.len() - i,
            {
                let alias = types[i].typ.as_ref();
                assert(all[i as int].typ == types@[i as int].typ@);
                assert(decreases_to!(all => all[i as int]));
                proof {
                    parts_decrease(types@[i as int].typ@);
                }
                walk_into(alias.data().unresolved_type(), out);
                i += 1;
                assert(refs_view(out@) =~= start + preorder_aliased(all, i as nat));
            }
            walk_into(rest, out);
        },
        _ => {},
    }
    assert(refs_view(out@) =~= refs_view(old(out)@) + preorder(typ@));
}

impl ArcType {
    /// The argument and the result, if the type is a function.
    pub fn as_function(&self) -> (res: Option<(&ArcType, &ArcType)>)
        requires
            !lacks_argument(self@),
        ensures
            match res {
                Some((arg, ret)) => function_parts(self@) matches Some(parts) && parts.1 == arg@
                    && parts.2 == ret@,
                None => function_parts(self@) is None,
            },
    {
        match self.as_function_with_type() {
            Some((_, arg, ret)) => Some((arg, ret)),
            None => None,
        }
    }

    /// The argument and the result, if the type is a function with an explicit argument.
    pub fn as_explicit_function(&self) -> (res: Option<(&ArcType, &ArcType)>)
        requires
            !lacks_argument(self@),
        ensures
            match res {
                Some((arg, ret)) => function_parts(self@) == Some(
                    (ArgType::Explicit, arg@, ret@),
                ),
                None => !(function_parts(self@) matches Some(parts) && parts.0
                    == ArgType::Explicit),
            },
    {
        match self.as_function_with_type() {
            Some((arg_type, arg, ret)) => if arg_type == ArgType::Explicit {
                Some((arg, ret))
            } else {
                None
            },
            None => None,
        }
    }

    /// How the argument is passed, the argument and the result, if the type is a function.
    pub fn as_function_with_type(&self) -> (res: Option<(ArgType, &ArcType, &ArcType)>)
        requires
            !lacks_argument(self@),
        ensures
            match res {
                Some((arg_type, arg, ret)) => function_parts(self@) == Some((arg_type, arg@, ret@)),
                None => function_parts(self@) is None,
            },
    {
        match self.as_type() {
            Type::Function(arg_type, arg, ret) => Some((*arg_type, arg, ret)),
            Type::App(app, args) => {
                let ghost tys = types_view(args@);
                assert(self@ == Ty::App(Box::new(app@), tys));
                assert(forall|i: int| 0 <= i < tys.len() ==> #[trigger] tys[i] == args@[i]@);
                if args.len() == 2 {
                    match app.as_type() {
                        Type::Builtin(BuiltinType::Function) => Some(
                            (ArgType::Explicit, &args[0], &args[1]),
                        ),
                        _ => None,
                    }
                } else if args.len() == 1 {
                    match app.as_type() {
                        Type::App(app2, args2) => match app2.as_type() {
                            Type::Builtin(BuiltinType::Function) => {
                                assert(app@ == Ty::App(Box::new(app2@), types_view(args2@)));
                                assert(applies_function(app@));
                                assert(types_view(args2@).len() == args2@.len());
                                assert(types_view(args2@)[0] == args2@[0]@);
                                Some((ArgType::Explicit, &args2[0], &args[0]))
                            },
                            _ => None,
                        },
                        _ => None,
                    }
                } else {
                    None
                }
            },
            _ => None,
        }
    }

    /// All the arguments that what the type applies is applied to.
    pub fn unapplied_args(&self) -> (res: Vec<ArcType>)
        ensures
            types_view(res@) == applied_args(self@),
        decreases self@,
    {
        match self.as_type() {
            Type::App(f, args) => {
                let mut all = f.unapplied_args();
                extend_types(&mut all, args);
                all
            },
            _ => {
                let all: Vec<ArcType> = Vec::new();
                assert(types_view(all@) =~= Seq::<Ty>::empty());
                all
            },
        }
    }

    /// The name of the alias or the identifier that the type applies.
    pub fn alias_ident(&self) -> (res: Option<&Symbol>)
        ensures
            match res {
                Some(id) => alias_name(self@) == Some(id@),
                None => alias_name(self@) is None,
            },
        decreases self@,
    {
        match self.as_type() {
            Type::App(id, _) => id.alias_ident(),
            Type::Ident(id) => Some(id),
            Type::Alias(alias) => Some(alias.data().name()),
            _ => None,
        }
    }

    /// The alias that the type applies.
    pub fn applied_alias(&self) -> (res: Option<&AliasRef>)
        ensures
            match res {
                Some(alias) => applied_alias_of(self@) == Some(alias@),
                None => applied_alias_of(self@) is None,
            },
        decreases self@,
    {
        match self.as_type() {
            Type::Alias(alias) => Some(alias),
            Type::App(alias, _) => alias.applied_alias(),
            _ => None,
        }
    }

    /// Whether the type is a record whose fields are all known.
    pub fn is_non_polymorphic_record(&self) -> (res: bool)
        ensures
            res == non_polymorphic_record(self@),
        decreases self@,
    {
        proof {
            parts_decrease(self@);
        }
        match self.as_type() {
            Type::Record(row) => row.is_non_polymorphic_record(),
            Type::ExtendRow { fields: _, rest } => rest.is_non_polymorphic_record(),
            Type::ExtendTypeRow { types: _, rest } => rest.is_non_polymorphic_record(),
            Type::EmptyRow => true,
            _ => false,
        }
    }

    /// The kind of the type.
    pub fn kind(&self, cache: &KindCache) -> (res: ArcKind)
        requires
            cache.wf(),
        ensures
            *res == kind_of(self@, 0),
    {
        self.kind_(cache, 0)
    }

    fn kind_(&self, cache: &KindCache, applied_args: usize) -> (res: ArcKind)
        requires
            cache.wf(),
        ensures
            *res == kind_of(self@, applied_args as nat),
        decreases self@,
    {
        proof {
            parts_decrease(self@);
        }
        let immediate_kind = match self.as_type() {
            Type::Function(..) => cache.typ.clone(),
            Type::App(t, args) => {
                assert(types_view(args@).len() == args@.len());
                t.kind_(cache, args.len())
            },
            Type::Error => cache.error.clone(),
            Type::Hole => cache.hole.clone(),
            Type::Opaque | Type::Builtin(_) | Type::Record(_) | Type::Variant(_) => Kind::typ(),
            Type::EmptyRow => Kind::row(),
            Type::ExtendRow { .. } => Kind::row(),
            Type::ExtendTypeRow { .. } => Kind::row(),
            Type::Effect(_) => Kind::function(Kind::typ(), Kind::typ()),
            Type::Forall(_, typ) => typ.kind_(cache, applied_args),
            Type::Variable(var) => var.kind.clone(),
            Type::Skolem(skolem) => skolem.kind.clone(),
            Type::Generic(gen) => gen.kind.clone(),
            Type::Ident(_) | Type::Projection(_) => cache.typ.clone(),
            Type::Alias(alias) => {
                let data = alias.data();
                let params = data.params();
                assert(generics_view(params@).len() == params@.len());
                if params.len() < applied_args {
                    return data.unresolved_type().kind_(cache, applied_args - params.len());
                }
                let inner = data.unresolved_type().kind_(cache, 0);
                let mut kind = inner.clone();
                let ghost left = data@.params.skip(applied_args as int);
                let mut i: usize = applied_args;
                assert(left.take(0) =~= Seq::<GenericTy>::empty());
                while i < params.len()
                    invariant
                        applied_args <= i <= params@.len(),
                        left == generics_view(params@).skip(applied_args as int),
                        *kind == kind_with_params(*inner, left.take(i - applied_args)),
                    decreases params@.len() - i,
                {
                    kind = Kind::function(params[i].kind.clone(), kind);
                    proof {
                        let now = left.take(i + 1 - applied_args);
                        assert(now.drop_last() =~= left.take(i - applied_args));
                        assert(now.last() == params@[i as int]@);
                    }
                    i += 1;
                }
                assert(left.take(i - applied_args) =~= left);
                return kind;
            },
        };
        apply_kind(immediate_kind, applied_args)
    }

    /// Returns the name of the type
    /// Example:
    /// Option a => Option
    /// Int => Int
    pub fn name(&self) -> (res: Option<Symbol>)
        ensures
            match res {
                Some(name) => name_of(self@) == Some(name@),
                None => name_of(self@) is None,
            },
    {
        match self.owned_name() {
            Some(key) => Some(key.symbol()),
            None => None,
        }
    }

    /// Returns the name of the type.
    pub fn owned_name(&self) -> (res: Option<SymbolKey>)
        ensures
            match res {
                Some(name) => name_of(self@) == Some(name@),
                None => name_of(self@) is None,
            },
    {
        if let Some(id) = self.alias_ident() {
            return Some(SymbolKey::Owned(id.clone()));
        }
        match self.as_type() {
            Type::Function(..) => Some(SymbolKey::Ref(BuiltinType::Function.to_str())),
            Type::App(id, _) => match id.as_type() {
                Type::Builtin(b) => Some(SymbolKey::Ref(b.to_str())),
                _ => None,
            },
            Type::Builtin(b) => Some(SymbolKey::Ref(b.to_str())),
            Type::Effect(_) => Some(SymbolKey::Ref("Effect")),
            _ => None,
        }
    }

    /// What the type applies.
    pub fn spine(&self) -> (res: &ArcType)
        ensures
            res@ == spine(self@),
        decreases self@,
    {
        match self.as_type() {
            Type::App(id, _) => id.spine(),
            _ => self,
        }
    }

    /// The type without its leading implicit arguments.
    pub fn remove_implicit_args(&self) -> (res: &ArcType)
        ensures
            res@ == without_implicit_args(self@),
        decreases self@,
    {
        match self.as_type() {
            Type::Function(ArgType::Implicit, _, typ) => typ.remove_implicit_args(),
            _ => self,
        }
    }

    /// The type without its leading quantifiers and implicit arguments.
    pub fn remove_forall_and_implicit_args(&self) -> (res: &ArcType)
        ensures
            res@ == without_forall_and_implicit_args(self@),
        decreases self@,
    {
        match self.as_type() {
            Type::Function(ArgType::Implicit, _, typ) => typ.remove_forall_and_implicit_args(),
            Type::Forall(_, typ) => typ.remove_forall_and_implicit_args(),
            _ => self,
        }
    }

    /// Returns the lowest level which this type contains. The level informs from where type
    /// variables where created.
    pub fn level(&self) -> (res: u32)
        ensures
            res == lowest_id(preorder(self@)),
    {
        let types = walk_type(self);
        let ghost all = preorder(self@);
        let mut level: u32 = u32::MAX;
        let mut i: usize = 0;
        assert(all.take(0) =~= Seq::<Ty>::empty());
        while i < types.len()
            invariant
                i <= types@.len(),
                all == refs_view(types@),
                level == lowest_id(all.take(i as int)),
            decreases types@.len() - i,
        {
            proof {
                assert(all.take(i + 1).drop_last() =~= all.take(i as int));
                assert(all.take(i + 1).last() == types@[i as int]@);
            }
            match types[i].as_type() {
                Type::Variable(var) => {
                    if var.id < level {
                        level = var.id;
                    }
                },
                _ => {},
            }
            i += 1;
        }
        assert(all.take(i as int) =~= all);
        level
    }

    /// Whether variables or skolems occur in the type.
    pub fn needs_generalize(&self) -> (res: bool)
        ensures
            res == has_flag(self@, NEEDS_GENERALIZE),
    {
        self.flags().has(NEEDS_GENERALIZE)
    }

    /// Whether the type is a record whose fields are `_0`, `_1` and so on, in order, and which has
    /// no associated types.
    pub fn is_tuple(&self) -> (res: bool)
        requires
            row_fields(self@).len() <= usize::MAX,
        ensures
            res == is_tuple_ty(self@),
    {
        match self.as_type() {
            Type::Record(_) => {
                if type_field_iter(self).next().is_some() {
                    return false;
                }
                let mut iter = row_iter(self);
                let mut i: usize = 0;
                let ghost all = row_fields(self@);
                assert(all.skip(0) =~= all);
                loop
                    invariant
                        iter.wf(),
                        i <= all.len(),
                        all == row_fields(self@),
                        all.len() <= usize::MAX,
                        self@ is Record,
                        type_fields(self@).len() == 0,
                        iter@ == all.skip(i as int),
                        forall|j: int|
                            0 <= j < i ==> tuple_position((#[trigger] all[j]).name) == Some(
                                j as nat,
                            ),
                    decreases all.len() - i,
                {
                    match iter.next() {
                        Some(field) => {
                            proof {
                                assert(all.skip(i as int).drop_first() =~= all.skip(i + 1));
                                assert(all.skip(i as int)[0] == all[i as int]);
                            }
                            if !is_position(field.name.as_str(), i) {
                                return false;
                            }
                            i += 1;
                        },
                        None => {
                            return true;
                        },
                    }
                }
            },
            _ => false,
        }
    }
}

/// The number that the first `n` of `digits` write, if they are digits.
pub open spec fn number(digits: Seq<char>, n: nat) -> Option<nat>
    decreases n,
{
    if n == 0 || n > digits.len() {
        Some(0)
    } else {
        match number(digits, (n - 1) as nat) {
            Some(before) => if '0' <= digits[n - 1] <= '9' {
                Some(before * 10 + (digits[n - 1] as nat - '0' as nat) as nat)
            } else {
                None
            },
            None => None,
        }
    }
}

/// The number that `text` writes: digits, with a plus sign in front of them or not.
pub open spec fn written_number(text: Seq<char>) -> Option<nat> {
    let digits = if text.len() > 0 && text[0] == '+' {
        text.skip(1)
    } else {
        text
    };
    if digits.len() == 0 {
        None
    } else {
        number(digits, digits.len())
    }
}

/// The position in a tuple that the field name `name` writes behind an underscore.
pub open spec fn tuple_position(name: Seq<char>) -> Option<nat> {
    if name.len() > 0 && name[0] == '_' {
        written_number(name.skip(1))
    } else {
        None
    }
}

proof fn number_grows(digits: Seq<char>, m: nat, n: nat)
    requires
        m <= n <= digits.len(),
        number(digits, n) is Some,
    ensures
        number(digits, m) is Some,
        number(digits, m)->0 <= number(digits, n)->0,
    decreases n,
{
    if m < n {
        number_grows(digits, m, (n - 1) as nat);
    }
}

/// Whether the field name `name` writes the position `at`.
fn is_position(name: &str, at: usize) -> (res: bool)
    ensures
        res == (tuple_position(name@) == Some(at as nat)),
{
    let all = chars(name);
    if all.len() == 0 || all[0] != '_' {
        return false;
    }
    let start: usize = if all.len() > 1 && all[1] == '+' {
        2
    } else {
        1
    };
    let ghost digits = name@.skip(start as int);
    proof {
        assert(name@.skip(1).len() > 0 ==> name@.skip(1)[0] == name@[1]);
        assert(name@.len() > 1 ==> name@.skip(1).skip(1) =~= name@.skip(2));
        assert(tuple_position(name@) == if digits.len() == 0 {
            None
        } else {
            number(digits, digits.len())
        });
    }
    if start == all.len() {
        return false;
    }
    let mut value: usize = 0;
    let mut i: usize = start;
    while i < all.len()
        invariant
            start <= i <= all@.len(),
            all@ == name@,
            digits == name@.skip(start as int),
            number(digits, (i - start) as nat) == Some(value as nat),
            tuple_position(name@) == number(digits, digits.len()),
            value <= at,
        decreases all@.len() - i,
    {
        let c = all[i];
        assert(digits[i - start] == c);
        if c < '0' || '9' < c {
            proof {
                if number(digits, digits.len()) is Some {
                    number_grows(digits, (i - start + 1) as nat, digits.len());
                }
            }
            return false;
        }
        let digit: usize = c as usize - '0' as usize;
        assert(number(digits, (i - start + 1) as nat) == Some((value * 10 + digit) as nat));
        if value > at / 10 || digit > at - value * 10 {
            proof {
                if number(digits, digits.len()) is Some {
                    number_grows(digits, (i - start + 1) as nat, digits.len());
                }
            }
            return false;
        }
        value = value * 10 + digit;
        i += 1;
    }
    value == at
}

/// Whether `t` is a record whose fields are `_0`, `_1` and so on, in order, and which has no
/// associated types.
pub open spec fn is_tuple_ty(t: Ty) -> bool {
    &&& t is Record
    &&& type_fields(t).len() == 0
    &&& forall|i: int|
        0 <= i < row_fields(t).len() ==> tuple_position((#[trigger] row_fields(t)[i]).name) == Some(
            i as nat,
        )
}

impl AliasData {
    /// The kind of the alias.
    pub fn kind(&self, cache: &KindCache) -> (res: ArcKind)
        requires
            cache.wf(),
        ensures
            *res == constructor_kind(kind_of(self@.typ, 0), self@.params),
    {
        let result = self.unresolved_type().kind(cache);
        let params = self.params();
        let ghost all = generics_view(params@);
        let mut kind = result.clone();
        let mut i: usize = params.len();
        assert(all.skip(i as int) =~= Seq::<GenericTy>::empty());
        while i > 0
            invariant
                i <= params@.len(),
                all == generics_view(params@),
                *kind == constructor_kind(*result, all.skip(i as int)),
            decreases i,
        {
            i -= 1;
            kind = Kind::function(params[i].kind.clone(), kind);
            assert(all.skip(i as int).drop_first() =~= all.skip(i + 1));
        }
        assert(all.skip(0) =~= all);
        kind
    }
}

} // verus!
