//! Type variables and what they are bound to.

use vstd::prelude::*;
use crate::kind::{ArcKind, Kind};
use crate::symbol::Symbol;
use crate::types::model::{parts_decrease, FieldTy, SkolemTy, Ty};
use crate::types::walk::opt_view;
use crate::types::{
    fields_view, type_fields_view, types_view, ArcType, Field, Skolem, Type, TypeField,
    TypeVariable,
};

verus! {

/// Hands out type variables and skolems, each with an id that was not handed out before.
pub struct FreshTypes {
    next: u32,
}

/// The variable `id` of kind `Type`.
pub open spec fn is_variable(t: Ty, id: u32) -> bool {
    t matches Ty::Variable(var) && var.id == id && *var.kind == Kind::Type
}

impl View for FreshTypes {
    type V = u32;

    /// The next id.
    closed spec fn view(&self) -> u32 {
        self.next
    }
}

impl FreshTypes {
    /// Hands out ids from `next` on.
    pub fn new(next: u32) -> (res: FreshTypes)
        ensures
            res@ == next,
    {
        FreshTypes { next }
    }

    /// A fresh variable of kind `Type`.
    pub fn new_var(&mut self) -> (res: ArcType)
        requires
            old(self)@ < u32::MAX,
        ensures
            final(self)@ == old(self)@ + 1,
            is_variable(res@, old(self)@),
    {
        let id: u32 = self.next;
        self.next = id + 1;
        Type::variable(TypeVariable::new(id))
    }

    /// A fresh skolem for the parameter `name`.
    pub fn new_skolem(&mut self, name: Symbol, kind: ArcKind) -> (res: ArcType)
        requires
            old(self)@ < u32::MAX,
        ensures
            final(self)@ == old(self)@ + 1,
            res@ == Ty::Skolem(SkolemTy { name: name@, id: old(self)@, kind }),
    {
        let id: u32 = self.next;
        self.next = id + 1;
        Type::skolem(Skolem { name, id, kind })
    }
}

/// What type variables are bound to, by their ids.
pub type Subst = Seq<Option<Ty>>;

/// What is bound to the variable `id`.
pub open spec fn bound(subst: Subst, id: u32) -> Option<Ty> {
    if id < subst.len() {
        subst[id as int]
    } else {
        None
    }
}

/// What `t` stands for, after at most `n` variables.
pub open spec fn actual_within(subst: Subst, t: Ty, n: nat) -> Option<Ty>
    decreases n,
{
    match t {
        Ty::Variable(var) => match bound(subst, var.id) {
            Some(next) => if n == 0 {
                None
            } else {
                actual_within(subst, next, (n - 1) as nat)
            },
            None => Some(t),
        },
        _ => Some(t),
    }
}

/// What `t` stands for. There is no answer where variables are bound in a circle.
pub open spec fn actual(subst: Subst, t: Ty) -> Option<Ty> {
    actual_within(subst, t, subst.len())
}

pub open spec fn either(a: Option<bool>, b: Option<bool>) -> Option<bool> {
    match (a, b) {
        (Some(a), Some(b)) => Some(a || b),
        _ => None,
    }
}

/// Whether the variable `id` occurs in what `t` stands for, through at most `f` bindings.
pub open spec fn occurs(f: nat, subst: Subst, id: u32, t: Ty) -> Option<bool>
    decreases f, t, 0nat,
{
    match t {
        Ty::Variable(var) => match bound(subst, var.id) {
            Some(next) => if f == 0 {
                None
            } else {
                occurs((f - 1) as nat, subst, id, next)
            },
            None => Some(var.id == id),
        },
        Ty::Function(_, arg, ret) => either(occurs(f, subst, id, *arg), occurs(f, subst, id, *ret)),
        Ty::App(g, args) => either(
            occurs(f, subst, id, *g),
            occurs_any(f, subst, id, args, args.len()),
        ),
        Ty::Forall(_, x) => occurs(f, subst, id, *x),
        Ty::Record(x) => occurs(f, subst, id, *x),
        Ty::Variant(x) => occurs(f, subst, id, *x),
        Ty::Effect(x) => occurs(f, subst, id, *x),
        Ty::ExtendRow(fields, rest) => either(
            occurs_fields(f, subst, id, fields, fields.len()),
            occurs(f, subst, id, *rest),
        ),
        Ty::ExtendTypeRow(types, rest) => either(
            occurs_aliases(f, subst, id, types, types.len()),
            occurs(f, subst, id, *rest),
        ),
        _ => Some(false),
    }
}

pub open spec fn occurs_any(f: nat, subst: Subst, id: u32, types: Seq<Ty>, n: nat) -> Option<bool>
    decreases f, types, n,
{
    if n == 0 || n > types.len() {
        Some(false)
    } else {
        either(
            occurs_any(f, subst, id, types, (n - 1) as nat),
            occurs(f, subst, id, types[n - 1]),
        )
    }
}

pub open spec fn occurs_fields(
    f: nat,
    subst: Subst,
    id: u32,
    fields: Seq<FieldTy>,
    n: nat,
) -> Option<bool>
    decreases f, fields, n,
{
    if n == 0 || n > fields.len() {
        Some(false)
    } else {
        either(
            occurs_fields(f, subst, id, fields, (n - 1) as nat),
            occurs(f, subst, id, fields[n - 1].typ),
        )
    }
}

pub open spec fn occurs_aliases(
    f: nat,
    subst: Subst,
    id: u32,
    types: Seq<FieldTy>,
    n: nat,
) -> Option<bool>
    decreases f, types, n,
{
    if n == 0 || n > types.len() {
        Some(false)
    } else {
        either(
            occurs_aliases(f, subst, id, types, (n - 1) as nat),
            match types[n - 1].typ {
                Ty::Alias(alias) => if 0 <= alias.index < alias.group.len() {
                    occurs(f, subst, id, alias.group[alias.index].typ)
                } else {
                    Some(false)
                },
                _ => Some(false),
            },
        )
    }
}


/// More steps give the same answer.
pub proof fn occurs_settles(f: nat, subst: Subst, id: u32, t: Ty)
    requires
        occurs(f, subst, id, t) is Some,
    ensures
        occurs((f + 1) as nat, subst, id, t) == occurs(f, subst, id, t),
    decreases f, t, 0nat,
{
    parts_decrease(t);
    match t {
        Ty::Variable(var) => {
            if let Some(next) = bound(subst, var.id) {
                occurs_settles((f - 1) as nat, subst, id, next);
            }
        },
        Ty::Function(_, arg, ret) => {
            occurs_settles(f, subst, id, *arg);
            occurs_settles(f, subst, id, *ret);
        },
        Ty::App(g, args) => {
            occurs_settles(f, subst, id, *g);
            occurs_any_settles(f, subst, id, args, args.len());
        },
        Ty::Forall(_, x) => {
            occurs_settles(f, subst, id, *x);
        },
        Ty::Record(x) => {
            occurs_settles(f, subst, id, *x);
        },
        Ty::Variant(x) => {
            occurs_settles(f, subst, id, *x);
        },
        Ty::Effect(x) => {
            occurs_settles(f, subst, id, *x);
        },
        Ty::ExtendRow(fields, rest) => {
            occurs_fields_settles(f, subst, id, fields, fields.len());
            occurs_settles(f, subst, id, *rest);
        },
        Ty::ExtendTypeRow(types, rest) => {
            occurs_aliases_settles(f, subst, id, types, types.len());
            occurs_settles(f, subst, id, *rest);
        },
        _ => {},
    }
}

proof fn occurs_any_settles(f: nat, subst: Subst, id: u32, types: Seq<Ty>, n: nat)
    requires
        occurs_any(f, subst, id, types, n) is Some,
    ensures
        occurs_any((f + 1) as nat, subst, id, types, n) == occurs_any(f, subst, id, types, n),
    decreases f, types, n,
{
    if 0 < n <= types.len() {
        assert(decreases_to!(types => types[n - 1]));
        occurs_any_settles(f, subst, id, types, (n - 1) as nat);
        occurs_settles(f, subst, id, types[n - 1]);
    }
}

proof fn occurs_fields_settles(f: nat, subst: Subst, id: u32, fields: Seq<FieldTy>, n: nat)
    requires
        occurs_fields(f, subst, id, fields, n) is Some,
    ensures
        occurs_fields((f + 1) as nat, subst, id, fields, n) == occurs_fields(
            f,
            subst,
            id,
            fields,
            n,
        ),
    decreases f, fields, n,
{
    if 0 < n <= fields.len() {
        assert(decreases_to!(fields => fields[n - 1]));
        assert(decreases_to!(fields[n - 1] => fields[n - 1].typ));
        occurs_fields_settles(f, subst, id, fields, (n - 1) as nat);
        occurs_settles(f, subst, id, fields[n - 1].typ);
    }
}

proof fn occurs_aliases_settles(f: nat, subst: Subst, id: u32, types: Seq<FieldTy>, n: nat)
    requires
        occurs_aliases(f, subst, id, types, n) is Some,
    ensures
        occurs_aliases((f + 1) as nat, subst, id, types, n) == occurs_aliases(
            f,
            subst,
            id,
            types,
            n,
        ),
    decreases f, types, n,
{
    if 0 < n <= types.len() {
        assert(decreases_to!(types => types[n - 1]));
        assert(decreases_to!(types[n - 1] => types[n - 1].typ));
        parts_decrease(types[n - 1].typ);
        occurs_aliases_settles(f, subst, id, types, (n - 1) as nat);
        if let Ty::Alias(alias) = types[n - 1].typ {
            if 0 <= alias.index < alias.group.len() {
                occurs_settles(f, subst, id, alias.group[alias.index].typ);
            }
        }
    }
}

/// Whether a variable occurs can be told of one variable if it can be told of another.
pub proof fn occurs_is_told(f: nat, subst: Subst, a: u32, b: u32, t: Ty)
    requires
        occurs(f, subst, a, t) is Some,
    ensures
        occurs(f, subst, b, t) is Some,
    decreases f, t, 0nat,
{
    parts_decrease(t);
    match t {
        Ty::Variable(var) => {
            if let Some(next) = bound(subst, var.id) {
                occurs_is_told((f - 1) as nat, subst, a, b, next);
            }
        },
        Ty::Function(_, arg, ret) => {
            occurs_is_told(f, subst, a, b, *arg);
            occurs_is_told(f, subst, a, b, *ret);
        },
        Ty::App(g, args) => {
            occurs_is_told(f, subst, a, b, *g);
            occurs_any_is_told(f, subst, a, b, args, args.len());
        },
        Ty::Forall(_, x) => {
            occurs_is_told(f, subst, a, b, *x);
        },
        Ty::Record(x) => {
            occurs_is_told(f, subst, a, b, *x);
        },
        Ty::Variant(x) => {
            occurs_is_told(f, subst, a, b, *x);
        },
        Ty::Effect(x) => {
            occurs_is_told(f, subst, a, b, *x);
        },
        Ty::ExtendRow(fields, rest) => {
            occurs_fields_is_told(f, subst, a, b, fields, fields.len());
            occurs_is_told(f, subst, a, b, *rest);
        },
        Ty::ExtendTypeRow(types, rest) => {
            occurs_aliases_is_told(f, subst, a, b, types, types.len());
            occurs_is_told(f, subst, a, b, *rest);
        },
        _ => {},
    }
}

proof fn occurs_any_is_told(f: nat, subst: Subst, a: u32, b: u32, types: Seq<Ty>, n: nat)
    requires
        occurs_any(f, subst, a, types, n) is Some,
    ensures
        occurs_any(f, subst, b, types, n) is Some,
    decreases f, types, n,
{
    if 0 < n <= types.len() {
        assert(decreases_to!(types => types[n - 1]));
        occurs_any_is_told(f, subst, a, b, types, (n - 1) as nat);
        occurs_is_told(f, subst, a, b, types[n - 1]);
    }
}

proof fn occurs_fields_is_told(f: nat, subst: Subst, a: u32, b: u32, fields: Seq<FieldTy>, n: nat)
    requires
        occurs_fields(f, subst, a, fields, n) is Some,
    ensures
        occurs_fields(f, subst, b, fields, n) is Some,
    decreases f, fields, n,
{
    if 0 < n <= fields.len() {
        assert(decreases_to!(fields => fields[n - 1]));
        assert(decreases_to!(fields[n - 1] => fields[n - 1].typ));
        occurs_fields_is_told(f, subst, a, b, fields, (n - 1) as nat);
        occurs_is_told(f, subst, a, b, fields[n - 1].typ);
    }
}

proof fn occurs_aliases_is_told(f: nat, subst: Subst, a: u32, b: u32, types: Seq<FieldTy>, n: nat)
    requires
        occurs_aliases(f, subst, a, types, n) is Some,
    ensures
        occurs_aliases(f, subst, b, types, n) is Some,
    decreases f, types, n,
{
    if 0 < n <= types.len() {
        assert(decreases_to!(types => types[n - 1]));
        assert(decreases_to!(types[n - 1] => types[n - 1].typ));
        parts_decrease(types[n - 1].typ);
        occurs_aliases_is_told(f, subst, a, b, types, (n - 1) as nat);
        if let Ty::Alias(alias) = types[n - 1].typ {
            if 0 <= alias.index < alias.group.len() {
                occurs_is_told(f, subst, a, b, alias.group[alias.index].typ);
            }
        }
    }
}

/// The levels of the variables when the variable `id` is bound to `t`: no variable in `t` is left at
/// a higher level than that of `id`.
pub open spec fn lowered(f: nat, subst: Subst, levels: Seq<u32>, id: u32, t: Ty) -> Seq<u32> {
    Seq::new(
        levels.len(),
        |w: int|
            if occurs(f, subst, w as u32, t) == Some(true) && levels[id as int] < levels[w] {
                levels[id as int]
            } else {
                levels[w]
            },
    )
}

/// Levels do not depend on how many steps are allowed.
pub proof fn lowered_settles(f: nat, subst: Subst, levels: Seq<u32>, id: u32, t: Ty)
    requires
        occurs(f, subst, id, t) is Some,
    ensures
        lowered((f + 1) as nat, subst, levels, id, t) == lowered(f, subst, levels, id, t),
{
    assert forall|w: int| 0 <= w < levels.len() implies occurs((f + 1) as nat, subst, w as u32, t)
        == #[trigger] occurs(f, subst, w as u32, t) by {
        occurs_is_told(f, subst, id, w as u32, t);
        occurs_settles(f, subst, w as u32, t);
    }
    assert(lowered((f + 1) as nat, subst, levels, id, t) =~= lowered(f, subst, levels, id, t));
}

proof fn occurs_any_before(f: nat, subst: Subst, id: u32, types: Seq<Ty>, m: nat, n: nat)
    requires
        m <= n <= types.len(),
        occurs_any(f, subst, id, types, n) is Some,
    ensures
        occurs_any(f, subst, id, types, m) is Some,
    decreases n,
{
    if m < n {
        occurs_any_before(f, subst, id, types, m, (n - 1) as nat);
    }
}

proof fn occurs_fields_before(f: nat, subst: Subst, id: u32, fields: Seq<FieldTy>, m: nat, n: nat)
    requires
        m <= n <= fields.len(),
        occurs_fields(f, subst, id, fields, n) is Some,
    ensures
        occurs_fields(f, subst, id, fields, m) is Some,
    decreases n,
{
    if m < n {
        occurs_fields_before(f, subst, id, fields, m, (n - 1) as nat);
    }
}

proof fn occurs_aliases_before(f: nat, subst: Subst, id: u32, types: Seq<FieldTy>, m: nat, n: nat)
    requires
        m <= n <= types.len(),
        occurs_aliases(f, subst, id, types, n) is Some,
    ensures
        occurs_aliases(f, subst, id, types, m) is Some,
    decreases n,
{
    if m < n {
        occurs_aliases_before(f, subst, id, types, m, (n - 1) as nat);
    }
}

/// A type variable.
struct Slot {
    typ: Option<ArcType>,
    /// Where the variable belongs: one that came later has a higher level.
    level: u32,
}

/// The types that type variables are bound to.
pub struct Substitution {
    slots: Vec<Slot>,
}

impl View for Substitution {
    type V = Subst;

    closed spec fn view(&self) -> Subst {
        self.slots@.map_values(|slot: Slot| opt_view(slot.typ))
    }
}

impl Substitution {
    /// The levels of the variables.
    pub closed spec fn levels(&self) -> Seq<u32> {
        self.slots@.map_values(|slot: Slot| slot.level)
    }

    /// The substitution without variables.
    pub fn new() -> (res: Substitution)
        ensures
            res@ == Seq::<Option<Ty>>::empty(),
            res.levels() == Seq::<u32>::empty(),
    {
        let res = Substitution { slots: Vec::new() };
        assert(res@ =~= Seq::<Option<Ty>>::empty());
        assert(res.levels() =~= Seq::<u32>::empty());
        res
    }

    /// How many variables there are.
    pub fn len(&self) -> (res: usize)
        ensures
            res == self@.len(),
            res == self.levels().len(),
    {
        self.slots.len()
    }

    /// A new variable, which is bound to nothing.
    pub fn new_var(&mut self) -> (res: ArcType)
        requires
            old(self)@.len() < u32::MAX,
        ensures
            final(self)@ == old(self)@.push(None),
            final(self).levels() == old(self).levels().push((old(self)@.len() + 1) as u32),
            is_variable(res@, old(self)@.len() as u32),
    {
        let id: u32 = self.slots.len() as u32;
        self.slots.push(Slot { typ: None, level: id + 1 });
        assert(self@ =~= old(self)@.push(None));
        assert(self.levels() =~= old(self).levels().push((id + 1) as u32));
        Type::variable(TypeVariable::new(id))
    }

    /// What the variable `id` is bound to.
    pub fn find_type_for_var(&self, id: u32) -> (res: Option<&ArcType>)
        ensures
            match res {
                Some(typ) => bound(self@, id) == Some(typ@),
                None => bound(self@, id) is None,
            },
    {
        if (id as usize) < self.slots.len() {
            assert(self@[id as int] == opt_view(self.slots@[id as int].typ));
            match &self.slots[id as usize].typ {
                Some(typ) => Some(typ),
                None => None,
            }
        } else {
            None
        }
    }

    /// What `typ` stands for: behind variables that are bound, the type that they are bound to.
    pub fn actual<'a>(&'a self, typ: &'a ArcType) -> (res: &'a ArcType)
        requires
            actual(self@, typ@) is Some,
        ensures
            actual(self@, typ@) == Some(res@),
    {
        let mut current = typ;
        let ghost mut n: nat = self@.len();
        loop
            invariant
                actual_within(self@, current@, n) == actual(self@, typ@),
                actual(self@, typ@) is Some,
            decreases n,
        {
            match current.as_type() {
                Type::Variable(var) => match self.find_type_for_var(var.id) {
                    Some(next) => {
                        current = next;
                        proof {
                            n = (n - 1) as nat;
                        }
                    },
                    None => {
                        return current;
                    },
                },
                _ => {
                    return current;
                },
            }
        }
    }

    /// Whether the variable `id` occurs in what `typ` stands for.
    pub(crate) fn occurs(&self, id: u32, typ: &ArcType, Ghost(f): Ghost<nat>) -> (res: bool)
        requires
            occurs(f, self@, id, typ@) is Some,
        ensures
            occurs(f, self@, id, typ@) == Some(res),
        decreases f, typ@, 0nat,
    {
        proof {
            parts_decrease(typ@);
        }
        match typ.as_type() {
            Type::Variable(var) => match self.find_type_for_var(var.id) {
                Some(next) => self.occurs(id, next, Ghost((f - 1) as nat)),
                None => var.id == id,
            },
            Type::Function(_, arg, ret) => {
                let a = self.occurs(id, arg, Ghost(f));
                let b = self.occurs(id, ret, Ghost(f));
                a || b
            },
            Type::App(g, args) => {
                let a = self.occurs(id, g, Ghost(f));
                let b = self.occurs_any(id, args, Ghost(f));
                a || b
            },
            Type::Forall(_, x) | Type::Record(x) | Type::Variant(x) | Type::Effect(x) => {
                self.occurs(id, x, Ghost(f))
            },
            Type::ExtendRow { fields, rest } => {
                let a = self.occurs_fields(id, fields, Ghost(f));
                let b = self.occurs(id, rest, Ghost(f));
                a || b
            },
            Type::ExtendTypeRow { types, rest } => {
                let a = self.occurs_aliases(id, types, Ghost(f));
                let b = self.occurs(id, rest, Ghost(f));
                a || b
            },
            _ => false,
        }
    }

    fn occurs_any(&self, id: u32, types: &Vec<ArcType>, Ghost(f): Ghost<nat>) -> (res: bool)
        requires
            occurs_any(f, self@, id, types_view(types@), types@.len()) is Some,
        ensures
            occurs_any(f, self@, id, types_view(types@), types@.len()) == Some(res),
        decreases f, types_view(types@), types@.len(),
    {
        let ghost all = types_view(types@);
        let mut res = false;
        let mut i: usize = 0;
        while i < types.len()
            invariant
                i <= types@.len(),
                all == types_view(types@),
                occurs_any(f, self@, id, all, types@.len()) is Some,
                occurs_any(f, self@, id, all, i as nat) == Some(res),
            decreases types@.len() - i,
        {
            proof {
                occurs_any_before(f, self@, id, all, (i + 1) as nat, types@.len());
                assert(decreases_to!(all => all[i as int]));
            }
            let new = self.occurs(id, &types[i], Ghost(f));
            res = res || new;
            i += 1;
        }
        res
    }

    fn occurs_fields(&self, id: u32, fields: &Vec<Field>, Ghost(f): Ghost<nat>) -> (res: bool)
        requires
            occurs_fields(f, self@, id, fields_view(fields@), fields@.len()) is Some,
        ensures
            occurs_fields(f, self@, id, fields_view(fields@), fields@.len()) == Some(res),
        decreases f, fields_view(fields@), fields@.len(),
    {
        let ghost all = fields_view(fields@);
        let mut res = false;
        let mut i: usize = 0;
        while i < fields.len()
            invariant
                i <= fields@.len(),
                all == fields_view(fields@),
                occurs_fields(f, self@, id, all, fields@.len()) is Some,
                occurs_fields(f, self@, id, all, i as nat) == Some(res),
            decreases fields@.len() - i,
        {
            proof {
                occurs_fields_before(f, self@, id, all, (i + 1) as nat, fields@.len());
                assert(decreases_to!(all => all[i as int]));
                assert(decreases_to!(all[i as int] => all[i as int].typ));
            }
            let new = self.occurs(id, &fields[i].typ, Ghost(f));
            res = res || new;
            i += 1;
        }
        res
    }

    fn occurs_aliases(&self, id: u32, types: &Vec<TypeField>, Ghost(f): Ghost<nat>) -> (res: bool)
        requires
            occurs_aliases(f, self@, id, type_fields_view(types@), types@.len()) is Some,
        ensures
            occurs_aliases(f, self@, id, type_fields_view(types@), types@.len()) == Some(res),
        decreases f, type_fields_view(types@), types@.len(),
    {
        let ghost all = type_fields_view(types@);
        let mut res = false;
        let mut i: usize = 0;
        while i < types.len()
            invariant
                i <= types@.len(),
                all == type_fields_view(types@),
                occurs_aliases(f, self@, id, all, types@.len()) is Some,
                occurs_aliases(f, self@, id, all, i as nat) == Some(res),
            decreases types@.len() - i,
        {
            proof {
                occurs_aliases_before(f, self@, id, all, (i + 1) as nat, types@.len());
                assert(decreases_to!(all => all[i as int]));
                assert(decreases_to!(all[i as int] => all[i as int].typ));
                parts_decrease(all[i as int].typ);
            }
            let alias = types[i].typ.as_ref();
            let new = self.occurs(id, alias.data().unresolved_type(), Ghost(f));
            res = res || new;
            i += 1;
        }
        res
    }

    /// The level of the variable `id`.
    pub fn level(&self, id: u32) -> (res: u32)
        requires
            id < self@.len(),
        ensures
            res == self.levels()[id as int],
    {
        self.slots[id as usize].level
    }

    /// Binds the variable `id` to `typ`.
    pub(crate) fn bind(&mut self, id: u32, typ: ArcType)
        requires
            id < old(self)@.len(),
        ensures
            final(self)@ == old(self)@.update(id as int, Some(typ@)),
            final(self).levels() == old(self).levels(),
    {
        let level: u32 = self.slots[id as usize].level;
        self.slots.set(id as usize, Slot { typ: Some(typ), level });
        assert(self@ =~= old(self)@.update(id as int, Some(typ@)));
        assert(self.levels() =~= old(self).levels());
    }

    /// Lowers the variables in `typ` to the level of the variable `id`.
    pub(crate) fn lower(&mut self, id: u32, typ: &ArcType, Ghost(f): Ghost<nat>)
        requires
            id < old(self)@.len() <= u32::MAX,
            occurs(f, old(self)@, id, typ@) is Some,
        ensures
            final(self)@ == old(self)@,
            final(self).levels() == lowered(f, old(self)@, old(self).levels(), id, typ@),
    {
        let level: u32 = self.slots[id as usize].level;
        let ghost after = lowered(f, self@, self.levels(), id, typ@);
        let ghost before = self.levels();
        let len: usize = self.slots.len();
        let mut i: usize = 0;
        while i < len
            invariant
                i <= len <= u32::MAX,
                id < len == self@.len(),
                self@ == old(self)@,
                occurs(f, self@, id, typ@) is Some,
                level == before[id as int],
                before.len() == len == self.levels().len(),
                after == lowered(f, self@, before, id, typ@),
                forall|w: int| 0 <= w < i ==> self.levels()[w] == after[w],
                forall|w: int| i <= w < len ==> self.levels()[w] == before[w],
            decreases len - i,
        {
            proof {
                occurs_is_told(f, self@, id, i as u32, typ@);
                assert(self.levels()[i as int] == self.slots@[i as int].level);
            }
            if self.occurs(i as u32, typ, Ghost(f)) && level < self.slots[i].level {
                let ghost slots = self.slots@;
                let ghost all = self.levels();
                let bound = match &self.slots[i].typ {
                    Some(typ) => Some(typ.clone()),
                    None => None,
                };
                self.slots.set(i, Slot { typ: bound, level });
                assert(self@ =~= old(self)@);
                assert(self.levels() =~= all.update(i as int, level));
            }
            i += 1;
        }
        assert(self.levels() =~= after);
    }
}

} // verus!
