//! Application of types to arguments, and instantiation of quantified types.

use vstd::prelude::*;
use crate::substitution::{is_variable, FreshTypes};
use crate::symbol_map::SymbolMap;
use crate::types::model::{GenericTy, SkolemTy, Ty};
use crate::types::query::{app_args, app_head, split_app};
use crate::types::rows::{forall_generics, forall_params, without_forall};
use crate::types::walk::{map_view, new_or, opt_view, rewritten, Rewrite};
use crate::types::{
    app_ty, forall_ty, generics_view, types_view, ArcType, BuiltinType, Generic, Type,
};

verus! {

/// How many of the last of `args` are the last of `params`, in order.
pub open spec fn trailing_params(args: Seq<Ty>, params: Seq<GenericTy>) -> nat
    decreases args.len(),
{
    if args.len() > 0 && params.len() > 0 && args.last() == Ty::Generic(params.last()) {
        trailing_params(args.drop_last(), params.drop_last()) + 1
    } else {
        0
    }
}

/// `map` with the names of `params` mapped to `args`, as far as there are both.
pub open spec fn bind_params(
    map: Map<Seq<char>, Ty>,
    params: Seq<GenericTy>,
    args: Seq<Ty>,
) -> Map<Seq<char>, Ty>
    decreases params.len(), args.len(),
{
    if params.len() == 0 || args.len() == 0 {
        map
    } else if params.len() > args.len() {
        bind_params(map, params.drop_last(), args)
    } else if args.len() > params.len() {
        bind_params(map, params, args.take(params.len() as int))
    } else {
        bind_params(map, params.drop_last(), args.drop_last()).insert(params.last().id, args.last())
    }
}

/// The type that a parameterised type `t` is left as when it is applied to `args` arguments: `t`
/// itself where each parameter has an argument. Where arguments are missing, the parameters that
/// lack one have to be the last arguments in `t`, and are taken off there.
pub open spec fn partly_applied(t: Ty, params: Seq<GenericTy>, args: nat) -> Option<Ty> {
    if params.len() == args {
        Some(t)
    } else if params.len() > trailing_params(app_args(t), params) + args {
        None
    } else {
        let kept = if args >= params.len() {
            app_args(t)
        } else {
            app_args(t).take(app_args(t).len() + args - params.len())
        };
        Some(app_ty(new_or(app_head(t), Ty::Builtin(BuiltinType::Function)), kept))
    }
}

/// `args` behind those that `params` take.
pub open spec fn extra_args(params: Seq<GenericTy>, args: Seq<Ty>) -> Seq<Ty> {
    if params.len() <= args.len() {
        args.skip(params.len() as int)
    } else {
        Seq::empty()
    }
}

/// `t`, whose parameters are `params`, applied to `args`.
pub open spec fn applied(
    t: Ty,
    params: Seq<GenericTy>,
    args: Seq<Ty>,
    map: Map<Seq<char>, Ty>,
) -> Option<Ty> {
    match partly_applied(t, params, args.len()) {
        Some(left) => Some(
            app_ty(
                new_or(rewritten(left, Rewrite::Generics(bind_params(map, params, args))), left),
                extra_args(params, args),
            ),
        ),
        None => None,
    }
}

/// At most all arguments are trailing parameters.
pub proof fn trailing_params_bound(args: Seq<Ty>, params: Seq<GenericTy>)
    ensures
        trailing_params(args, params) <= args.len(),
        trailing_params(args, params) <= params.len(),
    decreases args.len(),
{
    if args.len() > 0 && params.len() > 0 && args.last() == Ty::Generic(params.last()) {
        trailing_params_bound(args.drop_last(), params.drop_last());
    }
}

fn count_trailing_params(args: &Vec<ArcType>, params: &Vec<Generic>) -> (res: usize)
    ensures
        res == trailing_params(types_view(args@), generics_view(params@)),
{
    let ghost (all, gens) = (types_view(args@), generics_view(params@));
    let mut count: usize = 0;
    assert(all.take(all.len() as int) =~= all);
    assert(gens.take(gens.len() as int) =~= gens);
    while count < args.len() && count < params.len()
        invariant
            all == types_view(args@),
            gens == generics_view(params@),
            count <= args@.len(),
            count <= params@.len(),
            trailing_params(all, gens) == count + trailing_params(
                all.take(all.len() - count),
                gens.take(gens.len() - count),
            ),
        decreases args@.len() - count,
    {
        let arg = &args[args.len() - 1 - count];
        let param = &params[params.len() - 1 - count];
        proof {
            let (a, g) = (all.take(all.len() - count), gens.take(gens.len() - count));
            assert(a.last() == arg@);
            assert(g.last() == param@);
            assert(a.drop_last() =~= all.take(all.len() - count - 1));
            assert(g.drop_last() =~= gens.take(gens.len() - count - 1));
        }
        let same = match arg.as_type() {
            Type::Generic(g) => g.same(param),
            _ => false,
        };
        if !same {
            return count;
        }
        count += 1;
    }
    count
}

proof fn bind_params_step(map: Map<Seq<char>, Ty>, params: Seq<GenericTy>, args: Seq<Ty>, n: int)
    requires
        0 <= n < params.len(),
        n < args.len(),
    ensures
        bind_params(map, params.take(n + 1), args.take(n + 1)) == bind_params(
            map,
            params.take(n),
            args.take(n),
        ).insert(params[n].id, args[n]),
{
    let (p, a) = (params.take(n + 1), args.take(n + 1));
    assert(p.drop_last() =~= params.take(n));
    assert(a.drop_last() =~= args.take(n));
}

proof fn bind_params_short(map: Map<Seq<char>, Ty>, params: Seq<GenericTy>, args: Seq<Ty>, n: int)
    requires
        n == if params.len() <= args.len() {
            params.len() as int
        } else {
            args.len() as int
        },
    ensures
        bind_params(map, params, args) == bind_params(map, params.take(n), args.take(n)),
    decreases params.len(),
{
    if params.len() == 0 || args.len() == 0 {
    } else if params.len() > args.len() {
        bind_params_short(map, params.drop_last(), args, n);
        assert(params.drop_last().take(n) =~= params.take(n));
    } else {
        assert(params.take(n) =~= params);
        if args.len() == params.len() {
            assert(args.take(n) =~= args);
        }
    }
}

/// Maps the names of `params` to `args`, as far as there are both.
fn extend_named(named_variables: &mut SymbolMap<ArcType>, params: &Vec<Generic>, args: &Vec<ArcType>)
    ensures
        map_view(final(named_variables)@) == bind_params(
            map_view(old(named_variables)@),
            generics_view(params@),
            types_view(args@),
        ),
{
    let ghost (all, gens) = (types_view(args@), generics_view(params@));
    let ghost map = map_view(named_variables@);
    let mut i: usize = 0;
    while i < params.len() && i < args.len()
        invariant
            all == types_view(args@),
            gens == generics_view(params@),
            i <= args@.len(),
            i <= params@.len(),
            map_view(named_variables@) == bind_params(map, gens.take(i as int), all.take(i as int)),
        decreases params@.len() - i,
    {
        let ghost before = named_variables@;
        named_variables.insert(params[i].id.clone(), args[i].clone());
        proof {
            bind_params_step(map, gens, all, i as int);
            assert(map_view(named_variables@) =~= map_view(before).insert(
                gens[i as int].id,
                all[i as int],
            ));
        }
        i += 1;
    }
    proof {
        bind_params_short(map, gens, all, i as int);
    }
}

/// The variables `first`, `first + 1` and so on, `n` of them.
pub open spec fn are_variables(types: Seq<Ty>, first: u32) -> bool {
    forall|i: int|
        0 <= i < types.len() ==> is_variable(#[trigger] types[i], (first + i) as u32)
}

/// Skolems for `params` with the ids from `first` on.
pub open spec fn skolems(params: Seq<GenericTy>, first: u32) -> Seq<Ty> {
    Seq::new(
        params.len(),
        |i: int|
            Ty::Skolem(
                SkolemTy { name: params[i].id, id: (first + i) as u32, kind: params[i].kind },
            ),
    )
}

/// `t` without its quantifiers, its parameters replaced by `types` and other names as in `map`.
pub open spec fn instantiated(t: Ty, map: Map<Seq<char>, Ty>, types: Seq<Ty>) -> Ty {
    let inner = without_forall(t);
    new_or(
        rewritten(inner, Rewrite::Generics(bind_params(map, forall_generics(t), types))),
        inner,
    )
}

impl ArcType {
    /// Applies a parameterised type to a list of arguments, returning `Some`
    /// if the substitution was successful.
    ///
    /// Example:
    ///
    /// ```text
    /// self = forall e t . | Err e | Ok t
    /// args = [Error, Option a]
    /// result = | Err Error | Ok (Option a)
    /// ```
    pub fn apply_args(
        &self,
        params: &Vec<Generic>,
        args: &Vec<ArcType>,
        named_variables: &mut SymbolMap<ArcType>,
    ) -> (res: Option<ArcType>)
        ensures
            opt_view(res) == applied(
                self@,
                generics_view(params@),
                types_view(args@),
                map_view(old(named_variables)@),
            ),
            map_view(final(named_variables)@) == if res is Some {
                bind_params(
                    map_view(old(named_variables)@),
                    generics_view(params@),
                    types_view(args@),
                )
            } else {
                map_view(old(named_variables)@)
            },
    {
        let (non_replaced_type, unapplied_args) = match self.arg_application(
            params,
            args,
            named_variables,
        ) {
            Some(pair) => pair,
            None => {
                return None;
            },
        };
        let typ = match non_replaced_type.replace_generics(named_variables) {
            Some(typ) => typ,
            None => non_replaced_type,
        };
        Some(Type::app(typ, unapplied_args))
    }

    /// The type as it is left by an application to `args`, and the arguments that no parameter
    /// takes. The parameters are bound to the arguments in `named_variables`.
    #[verifier::rlimit(30)]
    pub fn arg_application(
        &self,
        params: &Vec<Generic>,
        args: &Vec<ArcType>,
        named_variables: &mut SymbolMap<ArcType>,
    ) -> (res: Option<(ArcType, Vec<ArcType>)>)
        ensures
            match res {
                Some((typ, extra)) => partly_applied(
                    self@,
                    generics_view(params@),
                    args@.len(),
                ) == Some(typ@) && types_view(extra@) == extra_args(
                    generics_view(params@),
                    types_view(args@),
                ) && map_view(final(named_variables)@) == bind_params(
                    map_view(old(named_variables)@),
                    generics_view(params@),
                    types_view(args@),
                ),
                None => partly_applied(self@, generics_view(params@), args@.len()) is None
                    && final(named_variables)@ == old(named_variables)@,
            },
    {
        let ghost gens = generics_view(params@);
        let ghost all_args = types_view(args@);
        let typ = if params.len() == args.len() {
            self.clone()
        } else {
            // It is ok to take the type only if it is fully applied or if it
            // the missing argument only appears in order at the end, i.e:
            //
            // type Test a b c = Type (a Int) b c
            //
            // Test a b == Type (a Int) b
            // Test a == Type (a Int)
            // Test == ??? (Impossible to do a sane substitution)
            let (head, arg_types) = split_app(self);
            let allowed_missing_args: usize = count_trailing_params(&arg_types, params);
            proof {
                trailing_params_bound(app_args(self@), gens);
                assert(types_view(arg_types@).len() == arg_types@.len());
            }
            if params.len() > args.len() && params.len() - args.len() > allowed_missing_args {
                return None;
            }
            let mut arg_types = arg_types;
            if args.len() < params.len() {
                let kept: usize = arg_types.len() - (params.len() - args.len());
                let ghost before = arg_types@;
                arg_types.truncate(kept);
                assert(types_view(arg_types@) =~= types_view(before).take(kept as int));
            }
            let head = match head {
                Some(head) => head.clone(),
                None => Type::function_builtin(),
            };
            Type::app(head, arg_types)
        };
        extend_named(named_variables, params, args);
        let mut extra: Vec<ArcType> = Vec::new();
        let mut i: usize = params.len();
        assert(types_view(extra@) =~= Seq::<Ty>::empty());
        while i < args.len()
            invariant
                params@.len() <= i,
                i <= args@.len() || i == params@.len(),
                all_args == types_view(args@),
                params@.len() <= args@.len() ==> extra@ =~= args@.subrange(
                    params@.len() as int,
                    i as int,
                ),
                params@.len() > args@.len() ==> extra@.len() == 0,
            decreases args@.len() - i,
        {
            extra.push(args[i].clone());
            i += 1;
        }
        assert(types_view(extra@) =~= extra_args(gens, all_args));
        Some((typ, extra))
    }

    /// The type without its quantifiers, their parameters replaced by fresh variables and the other
    /// names in `named_variables` by what they are bound to.
    pub fn instantiate_generics(
        &self,
        subs: &mut FreshTypes,
        named_variables: &mut SymbolMap<ArcType>,
    ) -> (res: ArcType)
        requires
            old(subs)@ + forall_generics(self@).len() <= u32::MAX,
        ensures
            final(subs)@ == old(subs)@ + forall_generics(self@).len(),
            exists|types: Seq<Ty>|
                {
                    &&& types.len() == forall_generics(self@).len()
                    &&& #[trigger] are_variables(types, old(subs)@)
                    &&& res@ == instantiated(self@, map_view(old(named_variables)@), types)
                    &&& map_view(final(named_variables)@) == bind_params(
                        map_view(old(named_variables)@),
                        forall_generics(self@),
                        types,
                    )
                },
    {
        let params = forall_params(self);
        let mut vars: Vec<ArcType> = Vec::new();
        let ghost first = subs@;
        let mut i: usize = 0;
        while i < params.len()
            invariant
                i <= params@.len(),
                vars@.len() == i,
                subs@ == first + i,
                first + params@.len() <= u32::MAX,
                forall|j: int| 0 <= j < i ==> is_variable((#[trigger] vars@[j])@, (first + j) as u32),
            decreases params@.len() - i,
        {
            vars.push(subs.new_var());
            i += 1;
        }
        assert(are_variables(types_view(vars@), first));
        extend_named(named_variables, &params, &vars);
        let typ = crate::types::rows::remove_forall(self);
        match typ.replace_generics(named_variables) {
            Some(typ) => typ,
            None => typ.clone(),
        }
    }

    /// The type without its quantifiers, their parameters replaced by fresh skolems and the other
    /// names in `named_variables` by what they are bound to.
    pub fn skolemize(
        &self,
        subs: &mut FreshTypes,
        named_variables: &mut SymbolMap<ArcType>,
    ) -> (res: ArcType)
        requires
            old(subs)@ + forall_generics(self@).len() <= u32::MAX,
        ensures
            final(subs)@ == old(subs)@ + forall_generics(self@).len(),
            res@ == instantiated(
                self@,
                map_view(old(named_variables)@),
                skolems(forall_generics(self@), old(subs)@),
            ),
            map_view(final(named_variables)@) == bind_params(
                map_view(old(named_variables)@),
                forall_generics(self@),
                skolems(forall_generics(self@), old(subs)@),
            ),
    {
        let params = forall_params(self);
        let mut types: Vec<ArcType> = Vec::new();
        let ghost first = subs@;
        let ghost gens = forall_generics(self@);
        let mut i: usize = 0;
        while i < params.len()
            invariant
                i <= params@.len(),
                gens == generics_view(params@),
                types@.len() == i,
                subs@ == first + i,
                first + params@.len() <= u32::MAX,
                forall|j: int| 0 <= j < i ==> (#[trigger] types@[j])@ == skolems(gens, first)[j],
            decreases params@.len() - i,
        {
            types.push(subs.new_skolem(params[i].id.clone(), params[i].kind.clone()));
            i += 1;
        }
        assert(types_view(types@) =~= skolems(gens, first));
        extend_named(named_variables, &params, &types);
        let typ = crate::types::rows::remove_forall(self);
        match typ.replace_generics(named_variables) {
            Some(typ) => typ,
            None => typ.clone(),
        }
    }

    /// `typ` quantified over the parameters of `from`.
    pub fn with_forall(typ: ArcType, from: &ArcType) -> (res: ArcType)
        ensures
            res@ == forall_ty(forall_generics(from@), typ@),
    {
        Type::forall_(forall_params(from), typ)
    }
}

} // verus!
