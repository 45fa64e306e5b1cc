//! Types with their variables replaced by what they are bound to and with their names replaced by
//! what they were renamed to.

use vstd::prelude::*;
use crate::substitution::{bound, Subst, Substitution};
use crate::symbol::Symbol;
use crate::typecheck::table::{latest, latest_name, names_table};
use crate::types::model::{parts_decrease, FieldTy, Ty};
use crate::types::{
    app_ty, clone_generics, clone_type_fields, clone_types, fields_view, types_view, ArcType, Field,
    Type,
};

verus! {

pub type Renames = Seq<(Seq<char>, Seq<char>)>;

/// What `name` was renamed to.
pub open spec fn renamed(renames: Renames, name: Seq<char>) -> Seq<char> {
    match latest(renames, name) {
        Some(new) => new,
        None => name,
    }
}

/// `g` applied to `args`, as a single application.
pub open spec fn flat_app(g: Ty, args: Seq<Ty>) -> Ty {
    match g {
        Ty::App(h, first) => Ty::App(h, first + args),
        _ => app_ty(g, args),
    }
}

/// The row `row` with its constructors renamed.
pub open spec fn renamed_row(renames: Renames, row: Ty) -> Ty
    decreases row,
{
    match row {
        Ty::ExtendRow(fields, rest) => Ty::ExtendRow(
            fields.map_values(
                |field: FieldTy| FieldTy { name: renamed(renames, field.name), typ: field.typ },
            ),
            Box::new(renamed_row(renames, *rest)),
        ),
        _ => row,
    }
}

/// `t` after the replacements, through at most `f` bindings of variables.
pub open spec fn settled_within(f: nat, subst: Subst, renames: Renames, t: Ty) -> Option<Ty>
    decreases f, t, 0nat,
{
    match t {
        Ty::Variable(var) => match bound(subst, var.id) {
            Some(next) => if f == 0 {
                None
            } else {
                settled_within((f - 1) as nat, subst, renames, next)
            },
            None => Some(t),
        },
        Ty::Ident(id) => Some(Ty::Ident(renamed(renames, id))),
        Ty::Forall(params, x) => match settled_within(f, subst, renames, *x) {
            Some(x) => Some(Ty::Forall(params, Box::new(x))),
            None => None,
        },
        Ty::Function(arg_type, arg, ret) => match (
            settled_within(f, subst, renames, *arg),
            settled_within(f, subst, renames, *ret),
        ) {
            (Some(arg), Some(ret)) => Some(Ty::Function(arg_type, Box::new(arg), Box::new(ret))),
            _ => None,
        },
        Ty::App(g, args) => match (
            settled_within(f, subst, renames, *g),
            all_settled_within(f, subst, renames, args, args.len()),
        ) {
            (Some(g), Some(args)) => Some(flat_app(g, args)),
            _ => None,
        },
        Ty::Record(x) => match settled_within(f, subst, renames, *x) {
            Some(x) => Some(Ty::Record(Box::new(x))),
            None => None,
        },
        Ty::Variant(x) => match settled_within(f, subst, renames, *x) {
            Some(x) => Some(Ty::Variant(Box::new(renamed_row(renames, x)))),
            None => None,
        },
        Ty::Effect(x) => match settled_within(f, subst, renames, *x) {
            Some(x) => Some(Ty::Effect(Box::new(x))),
            None => None,
        },
        Ty::ExtendRow(fields, rest) => match (
            fields_settled_within(f, subst, renames, fields, fields.len()),
            settled_within(f, subst, renames, *rest),
        ) {
            (Some(fields), Some(rest)) => Some(Ty::ExtendRow(fields, Box::new(rest))),
            _ => None,
        },
        Ty::ExtendTypeRow(types, rest) => match settled_within(f, subst, renames, *rest) {
            Some(rest) => Some(Ty::ExtendTypeRow(types, Box::new(rest))),
            None => None,
        },
        _ => Some(t),
    }
}

pub open spec fn all_settled_within(
    f: nat,
    subst: Subst,
    renames: Renames,
    types: Seq<Ty>,
    n: nat,
) -> Option<Seq<Ty>>
    decreases f, types, n,
{
    if n == 0 || n > types.len() {
        Some(Seq::empty())
    } else {
        match (
            all_settled_within(f, subst, renames, types, (n - 1) as nat),
            settled_within(f, subst, renames, types[n - 1]),
        ) {
            (Some(before), Some(t)) => Some(before.push(t)),
            _ => None,
        }
    }
}

pub open spec fn fields_settled_within(
    f: nat,
    subst: Subst,
    renames: Renames,
    fields: Seq<FieldTy>,
    n: nat,
) -> Option<Seq<FieldTy>>
    decreases f, fields, n,
{
    if n == 0 || n > fields.len() {
        Some(Seq::empty())
    } else {
        match (
            fields_settled_within(f, subst, renames, fields, (n - 1) as nat),
            settled_within(f, subst, renames, fields[n - 1].typ),
        ) {
            (Some(before), Some(typ)) => Some(
                before.push(FieldTy { name: fields[n - 1].name, typ }),
            ),
            _ => None,
        }
    }
}

/// More steps give the same answer.
proof fn settled_for_good(f: nat, subst: Subst, renames: Renames, t: Ty)
    requires
        settled_within(f, subst, renames, t) is Some,
    ensures
        settled_within((f + 1) as nat, subst, renames, t) == settled_within(f, subst, renames, t),
    decreases f, t, 0nat,
{
    parts_decrease(t);
    match t {
        Ty::Variable(var) => {
            if let Some(next) = bound(subst, var.id) {
                settled_for_good((f - 1) as nat, subst, renames, next);
            }
        },
        Ty::Function(_, arg, ret) => {
            settled_for_good(f, subst, renames, *arg);
            settled_for_good(f, subst, renames, *ret);
        },
        Ty::App(g, args) => {
            settled_for_good(f, subst, renames, *g);
            all_settled_for_good(f, subst, renames, args, args.len());
        },
        Ty::Forall(_, x) => {
            settled_for_good(f, subst, renames, *x);
        },
        Ty::Record(x) => {
            settled_for_good(f, subst, renames, *x);
        },
        Ty::Variant(x) => {
            settled_for_good(f, subst, renames, *x);
        },
        Ty::Effect(x) => {
            settled_for_good(f, subst, renames, *x);
        },
        Ty::ExtendRow(fields, rest) => {
            fields_settled_for_good(f, subst, renames, fields, fields.len());
            settled_for_good(f, subst, renames, *rest);
        },
        Ty::ExtendTypeRow(_, rest) => {
            settled_for_good(f, subst, renames, *rest);
        },
        _ => {},
    }
}

proof fn all_settled_for_good(f: nat, subst: Subst, renames: Renames, types: Seq<Ty>, n: nat)
    requires
        all_settled_within(f, subst, renames, types, n) is Some,
    ensures
        all_settled_within((f + 1) as nat, subst, renames, types, n) == all_settled_within(
            f,
            subst,
            renames,
            types,
            n,
        ),
    decreases f, types, n,
{
    if 0 < n <= types.len() {
        assert(decreases_to!(types => types[n - 1]));
        all_settled_for_good(f, subst, renames, types, (n - 1) as nat);
        settled_for_good(f, subst, renames, types[n - 1]);
    }
}

proof fn fields_settled_for_good(
    f: nat,
    subst: Subst,
    renames: Renames,
    fields: Seq<FieldTy>,
    n: nat,
)
    requires
        fields_settled_within(f, subst, renames, fields, n) is Some,
    ensures
        fields_settled_within((f + 1) as nat, subst, renames, fields, n) == fields_settled_within(
            f,
            subst,
            renames,
            fields,
            n,
        ),
    decreases f, fields, n,
{
    if 0 < n <= fields.len() {
        assert(decreases_to!(fields => fields[n - 1]));
        assert(decreases_to!(fields[n - 1] => fields[n - 1].typ));
        fields_settled_for_good(f, subst, renames, fields, (n - 1) as nat);
        settled_for_good(f, subst, renames, fields[n - 1].typ);
    }
}

proof fn settled_from(f: nat, g: nat, subst: Subst, renames: Renames, t: Ty)
    requires
        f <= g,
        settled_within(f, subst, renames, t) is Some,
    ensures
        settled_within(g, subst, renames, t) == settled_within(f, subst, renames, t),
    decreases g,
{
    if f < g {
        settled_from(f, (g - 1) as nat, subst, renames, t);
        settled_for_good((g - 1) as nat, subst, renames, t);
    }
}

/// `t` after the replacements. There is no answer where variables are bound in a circle.
pub open spec fn settled(subst: Subst, renames: Renames, t: Ty) -> Option<Ty> {
    if exists|f: nat| (#[trigger] settled_within(f, subst, renames, t)) is Some {
        settled_within(
            choose|f: nat| (#[trigger] settled_within(f, subst, renames, t)) is Some,
            subst,
            renames,
            t,
        )
    } else {
        None
    }
}

/// Any number of steps that is enough gives the answer.
pub proof fn settled_by(f: nat, subst: Subst, renames: Renames, t: Ty)
    requires
        settled_within(f, subst, renames, t) is Some,
    ensures
        settled(subst, renames, t) == settled_within(f, subst, renames, t),
{
    let g = choose|f: nat| (#[trigger] settled_within(f, subst, renames, t)) is Some;
    if f <= g {
        settled_from(f, g, subst, renames, t);
    } else {
        settled_from(g, f, subst, renames, t);
    }
}

proof fn all_settled_before(
    f: nat,
    subst: Subst,
    renames: Renames,
    types: Seq<Ty>,
    m: nat,
    n: nat,
)
    requires
        m <= n <= types.len(),
        all_settled_within(f, subst, renames, types, n) is Some,
    ensures
        all_settled_within(f, subst, renames, types, m) is Some,
    decreases n,
{
    if m < n {
        all_settled_before(f, subst, renames, types, m, (n - 1) as nat);
    }
}

proof fn fields_settled_before(
    f: nat,
    subst: Subst,
    renames: Renames,
    fields: Seq<FieldTy>,
    m: nat,
    n: nat,
)
    requires
        m <= n <= fields.len(),
        fields_settled_within(f, subst, renames, fields, n) is Some,
    ensures
        fields_settled_within(f, subst, renames, fields, m) is Some,
    decreases n,
{
    if m < n {
        fields_settled_before(f, subst, renames, fields, m, (n - 1) as nat);
    }
}

/// Without variables there is always an answer.
pub proof fn names_settle(renames: Renames, t: Ty)
    ensures
        settled(Seq::empty(), renames, t) is Some,
{
    names_settle_within(renames, t);
    settled_by(0, Seq::empty(), renames, t);
}

proof fn names_settle_within(renames: Renames, t: Ty)
    ensures
        settled_within(0, Seq::empty(), renames, t) is Some,
    decreases t, 0nat,
{
    parts_decrease(t);
    match t {
        Ty::Function(_, arg, ret) => {
            names_settle_within(renames, *arg);
            names_settle_within(renames, *ret);
        },
        Ty::App(g, args) => {
            names_settle_within(renames, *g);
            all_names_settle_within(renames, args, args.len());
        },
        Ty::Forall(_, x) => {
            names_settle_within(renames, *x);
        },
        Ty::Record(x) => {
            names_settle_within(renames, *x);
        },
        Ty::Variant(x) => {
            names_settle_within(renames, *x);
        },
        Ty::Effect(x) => {
            names_settle_within(renames, *x);
        },
        Ty::ExtendRow(fields, rest) => {
            fields_names_settle_within(renames, fields, fields.len());
            names_settle_within(renames, *rest);
        },
        Ty::ExtendTypeRow(_, rest) => {
            names_settle_within(renames, *rest);
        },
        _ => {},
    }
}

proof fn all_names_settle_within(renames: Renames, types: Seq<Ty>, n: nat)
    ensures
        all_settled_within(0, Seq::empty(), renames, types, n) is Some,
    decreases types, n,
{
    if 0 < n <= types.len() {
        assert(decreases_to!(types => types[n - 1]));
        all_names_settle_within(renames, types, (n - 1) as nat);
        names_settle_within(renames, types[n - 1]);
    }
}

proof fn fields_names_settle_within(renames: Renames, fields: Seq<FieldTy>, n: nat)
    ensures
        fields_settled_within(0, Seq::empty(), renames, fields, n) is Some,
    decreases fields, n,
{
    if 0 < n <= fields.len() {
        assert(decreases_to!(fields => fields[n - 1]));
        assert(decreases_to!(fields[n - 1] => fields[n - 1].typ));
        fields_names_settle_within(renames, fields, (n - 1) as nat);
        names_settle_within(renames, fields[n - 1].typ);
    }
}

/// `t` with its names replaced by what they were renamed to.
pub open spec fn refreshed(renames: Renames, t: Ty) -> Ty {
    settled(Seq::empty(), renames, t)->0
}

/// What `name` was renamed to.
pub fn rename(renames: &Vec<(Symbol, Symbol)>, name: &Symbol) -> (res: Symbol)
    ensures
        res@ == renamed(names_table(renames@), name@),
{
    match latest_name(renames, name) {
        Some(new) => new.clone(),
        None => name.clone(),
    }
}

/// `g` applied to `args`, as a single application.
fn to_flat_app(g: ArcType, args: Vec<ArcType>) -> (res: ArcType)
    ensures
        res@ == flat_app(g@, types_view(args@)),
{
    if let Type::App(h, first) = g.as_type() {
        let mut all = clone_types(first);
        let ghost start = types_view(first@);
        let mut i: usize = 0;
        assert(types_view(args@).take(0) =~= Seq::<Ty>::empty());
        assert(types_view(all@) =~= start + types_view(args@).take(0));
        while i < args.len()
            invariant
                i <= args@.len(),
                types_view(all@) == start + types_view(args@).take(i as int),
            decreases args@.len() - i,
        {
            let ghost before = all@;
            all.push(args[i].clone());
            assert(types_view(all@) =~= types_view(before).push(args@[i as int]@));
            assert(types_view(args@).take(i + 1) =~= types_view(args@).take(i as int).push(
                args@[i as int]@,
            ));
            assert(types_view(all@) =~= start + types_view(args@).take(i + 1));
            i += 1;
        }
        assert(types_view(args@).take(i as int) =~= types_view(args@));
        return ArcType::new(Type::App(h.clone(), all));
    }
    Type::app(g, args)
}

/// The row `row` with its constructors renamed.
fn rename_row(renames: &Vec<(Symbol, Symbol)>, row: &ArcType) -> (res: ArcType)
    ensures
        res@ == renamed_row(names_table(renames@), row@),
    decreases row@,
{
    match row.as_type() {
        Type::ExtendRow { fields, rest } => {
            proof {
                parts_decrease(row@);
            }
            let mut new: Vec<Field> = Vec::new();
            let mut i: usize = 0;
            while i < fields.len()
                invariant
                    i <= fields@.len(),
                    new@.len() == i,
                    forall|j: int|
                        0 <= j < i ==> (#[trigger] new@[j]).name@ == renamed(
                            names_table(renames@),
                            fields@[j].name@,
                        ) && new@[j].typ@ == fields@[j].typ@,
                decreases fields@.len() - i,
            {
                new.push(
                    Field { name: rename(renames, &fields[i].name), typ: fields[i].typ.clone() },
                );
                i += 1;
            }
            let rest = rename_row(renames, rest);
            proof {
                let all = names_table(renames@);
                assert(fields_view(new@) =~= fields_view(fields@).map_values(
                    |field: FieldTy| FieldTy { name: renamed(all, field.name), typ: field.typ },
                ));
            }
            ArcType::new(Type::ExtendRow { fields: new, rest })
        },
        _ => row.clone(),
    }
}

fn settle_within(
    subs: &Substitution,
    renames: &Vec<(Symbol, Symbol)>,
    typ: &ArcType,
    Ghost(f): Ghost<nat>,
) -> (res: ArcType)
    requires
        settled_within(f, subs@, names_table(renames@), typ@) is Some,
    ensures
        settled_within(f, subs@, names_table(renames@), typ@) == Some(res@),
    decreases f, typ@, 0nat,
{
    proof {
        parts_decrease(typ@);
    }
    match typ.as_type() {
        Type::Variable(var) => match subs.find_type_for_var(var.id) {
            Some(next) => settle_within(subs, renames, next, Ghost((f - 1) as nat)),
            None => typ.clone(),
        },
        Type::Ident(id) => Type::ident(rename(renames, id)),
        Type::Forall(params, x) => {
            let x = settle_within(subs, renames, x, Ghost(f));
            ArcType::new(Type::Forall(clone_generics(params), x))
        },
        Type::Function(arg_type, arg, ret) => {
            let arg = settle_within(subs, renames, arg, Ghost(f));
            let ret = settle_within(subs, renames, ret, Ghost(f));
            ArcType::new(Type::Function(*arg_type, arg, ret))
        },
        Type::App(g, args) => {
            let g = settle_within(subs, renames, g, Ghost(f));
            let args = settle_all_within(subs, renames, args, Ghost(f));
            to_flat_app(g, args)
        },
        Type::Record(x) => {
            ArcType::new(Type::Record(settle_within(subs, renames, x, Ghost(f))))
        },
        Type::Variant(x) => {
            let x = settle_within(subs, renames, x, Ghost(f));
            ArcType::new(Type::Variant(rename_row(renames, &x)))
        },
        Type::Effect(x) => {
            ArcType::new(Type::Effect(settle_within(subs, renames, x, Ghost(f))))
        },
        Type::ExtendRow { fields, rest } => {
            let fields = settle_fields_within(subs, renames, fields, Ghost(f));
            let rest = settle_within(subs, renames, rest, Ghost(f));
            ArcType::new(Type::ExtendRow { fields, rest })
        },
        Type::ExtendTypeRow { types, rest } => {
            let rest = settle_within(subs, renames, rest, Ghost(f));
            ArcType::new(Type::ExtendTypeRow { types: clone_type_fields(types), rest })
        },
        _ => typ.clone(),
    }
}

fn settle_all_within(
    subs: &Substitution,
    renames: &Vec<(Symbol, Symbol)>,
    types: &Vec<ArcType>,
    Ghost(f): Ghost<nat>,
) -> (res: Vec<ArcType>)
    requires
        all_settled_within(
            f,
            subs@,
            names_table(renames@),
            types_view(types@),
            types@.len(),
        ) is Some,
    ensures
        all_settled_within(f, subs@, names_table(renames@), types_view(types@), types@.len())
            == Some(types_view(res@)),
    decreases f, types_view(types@), types@.len(),
{
    let ghost all = types_view(types@);
    let ghost names = names_table(renames@);
    let mut res: Vec<ArcType> = Vec::new();
    let mut i: usize = 0;
    assert(types_view(res@) =~= Seq::<Ty>::empty());
    while i < types.len()
        invariant
            i <= types@.len(),
            all == types_view(types@),
            names == names_table(renames@),
            all_settled_within(f, subs@, names, all, types@.len()) is Some,
            all_settled_within(f, subs@, names, all, i as nat) == Some(types_view(res@)),
        decreases types@.len() - i,
    {
        proof {
            all_settled_before(f, subs@, names, all, (i + 1) as nat, types@.len());
            assert(decreases_to!(all => all[i as int]));
        }
        let ghost before = res@;
        let new = settle_within(subs, renames, &types[i], Ghost(f));
        res.push(new);
        assert(types_view(res@) =~= types_view(before).push(new@));
        i += 1;
    }
    res
}

fn settle_fields_within(
    subs: &Substitution,
    renames: &Vec<(Symbol, Symbol)>,
    fields: &Vec<Field>,
    Ghost(f): Ghost<nat>,
) -> (res: Vec<Field>)
    requires
        fields_settled_within(
            f,
            subs@,
            names_table(renames@),
            fields_view(fields@),
            fields@.len(),
        ) is Some,
    ensures
        fields_settled_within(f, subs@, names_table(renames@), fields_view(fields@), fields@.len())
            == Some(fields_view(res@)),
    decreases f, fields_view(fields@), fields@.len(),
{
    let ghost all = fields_view(fields@);
    let ghost names = names_table(renames@);
    let mut res: Vec<Field> = Vec::new();
    let mut i: usize = 0;
    assert(fields_view(res@) =~= Seq::<FieldTy>::empty());
    while i < fields.len()
        invariant
            i <= fields@.len(),
            all == fields_view(fields@),
            names == names_table(renames@),
            fields_settled_within(f, subs@, names, all, fields@.len()) is Some,
            fields_settled_within(f, subs@, names, all, i as nat) == Some(fields_view(res@)),
        decreases fields@.len() - i,
    {
        proof {
            fields_settled_before(f, subs@, names, all, (i + 1) as nat, fields@.len());
            assert(decreases_to!(all => all[i as int]));
            assert(decreases_to!(all[i as int] => all[i as int].typ));
        }
        let ghost before = res@;
        let typ = settle_within(subs, renames, &fields[i].typ, Ghost(f));
        res.push(Field { name: fields[i].name.clone(), typ });
        assert(fields_view(res@) =~= fields_view(before).push(
            FieldTy { name: all[i as int].name, typ: typ@ },
        ));
        i += 1;
    }
    res
}

/// `typ` after the replacements.
pub fn settle(subs: &Substitution, renames: &Vec<(Symbol, Symbol)>, typ: &ArcType) -> (res: ArcType)
    requires
        settled(subs@, names_table(renames@), typ@) is Some,
    ensures
        settled(subs@, names_table(renames@), typ@) == Some(res@),
{
    let ghost f = choose|f: nat|
        (#[trigger] settled_within(f, subs@, names_table(renames@), typ@)) is Some;
    settle_within(subs, renames, typ, Ghost(f))
}

/// `typ` with its variables replaced by what they are bound to.
pub fn settle_variables(subs: &Substitution, typ: &ArcType) -> (res: ArcType)
    requires
        settled(subs@, Seq::empty(), typ@) is Some,
    ensures
        settled(subs@, Seq::empty(), typ@) == Some(res@),
{
    let none: Vec<(Symbol, Symbol)> = Vec::new();
    assert(names_table(none@) =~= Seq::<(Seq<char>, Seq<char>)>::empty());
    settle(subs, &none, typ)
}

/// `typ` with its names replaced by what they were renamed to.
pub fn refresh_symbols_in_type(renames: &Vec<(Symbol, Symbol)>, typ: &ArcType) -> (res: ArcType)
    ensures
        res@ == refreshed(names_table(renames@), typ@),
{
    proof {
        names_settle(names_table(renames@), typ@);
    }
    settle(&Substitution::new(), renames, typ)
}

} // verus!
