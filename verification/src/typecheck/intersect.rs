//! What two types have in common.

use vstd::prelude::*;
use crate::ast::{Pattern, PatternField, SpannedPattern, ValueBinding};
use crate::resolve::TypeEnv;
use crate::symbol::Symbol;
use crate::typecheck::model::{finished, fresh, Inferred};
use crate::typecheck::pattern::{bound_name, name_of_pattern};
use crate::typecheck::settle::settled;
use crate::typecheck::state::Typecheck;
use crate::typecheck::table::last_at;
use crate::types::model::{parts_decrease, same_fields, same_type, FieldTy, Ty};
use crate::types::{clone_type_fields, fields_view, types_view, ArcType, Field, Type};
use crate::types::same::same_type_field_vec;
use crate::unify_type::same_names;

verus! {

/// Two types that differ, and the variable that stands where they do.
pub struct Pair {
    pub l: Ty,
    pub r: Ty,
    pub var: Ty,
}

/// How far the comparison of two types has come.
pub struct Meeting {
    pub s: Inferred,
    pub pairs: Seq<Pair>,
}

/// The variable for `l` and `r` among `pairs` from `i` on.
pub open spec fn paired(pairs: Seq<Pair>, l: Ty, r: Ty, i: int) -> Option<Ty>
    decreases pairs.len() - i,
{
    if i < 0 || i >= pairs.len() {
        None
    } else if same_type(pairs[i].l, l) && same_type(pairs[i].r, r) {
        Some(pairs[i].var)
    } else {
        paired(pairs, l, r, i + 1)
    }
}

/// The variable that stands where `l` and `r` do: the same one for the same pair.
pub open spec fn differs(m: Meeting, l: Ty, r: Ty) -> Option<(Meeting, Ty)> {
    match paired(m.pairs, l, r, 0) {
        Some(var) => Some((m, var)),
        None => match fresh(m.s) {
            Some((s, var)) => Some((Meeting { s, pairs: m.pairs.push(Pair { l, r, var }) }, var)),
            None => None,
        },
    }
}

/// What `l` and `r` have in common, with a variable where they differ.
pub open spec fn met(m: Meeting, l: Ty, r: Ty) -> Option<(Meeting, Ty)>
    decreases l, 0nat,
{
    if same_type(l, r) {
        Some((m, l))
    } else {
        match (l, r) {
            (Ty::Function(lk, la, lr), Ty::Function(rk, ra, rr)) if lk == rk => match met(
                m,
                *la,
                *ra,
            ) {
                None => None,
                Some((m, arg)) => match met(m, *lr, *rr) {
                    None => None,
                    Some((m, ret)) => Some((m, Ty::Function(lk, Box::new(arg), Box::new(ret)))),
                },
            },
            (Ty::App(lf, ls), Ty::App(rf, rs)) if ls.len() == rs.len() => match met(m, *lf, *rf) {
                None => None,
                Some((m, f)) => match met_all(m, ls, rs, ls.len()) {
                    None => None,
                    Some((m, args)) => Some((m, Ty::App(Box::new(f), args))),
                },
            },
            (Ty::Record(x), Ty::Record(y)) => match met(m, *x, *y) {
                None => None,
                Some((m, row)) => Some((m, Ty::Record(Box::new(row)))),
            },
            (Ty::Variant(x), Ty::Variant(y)) => match met(m, *x, *y) {
                None => None,
                Some((m, row)) => Some((m, Ty::Variant(Box::new(row)))),
            },
            (Ty::ExtendRow(ls, x), Ty::ExtendRow(rs, y)) if same_names(ls, rs) => match met_fields(
                m,
                ls,
                rs,
                ls.len(),
            ) {
                None => None,
                Some((m, fields)) => match met(m, *x, *y) {
                    None => None,
                    Some((m, rest)) => Some((m, Ty::ExtendRow(fields, Box::new(rest)))),
                },
            },
            (Ty::ExtendTypeRow(ls, x), Ty::ExtendTypeRow(rs, y)) if same_fields(ls, rs) => match met(
                m,
                *x,
                *y,
            ) {
                None => None,
                Some((m, rest)) => Some((m, Ty::ExtendTypeRow(ls, Box::new(rest)))),
            },
            _ => differs(m, l, r),
        }
    }
}

/// What the first `n` of `ls` and `rs` have in common, one by one.
pub open spec fn met_all(m: Meeting, ls: Seq<Ty>, rs: Seq<Ty>, n: nat) -> Option<
    (Meeting, Seq<Ty>),
>
    decreases ls, n,
{
    if n == 0 || n > ls.len() || n > rs.len() {
        Some((m, Seq::empty()))
    } else {
        match met_all(m, ls, rs, (n - 1) as nat) {
            None => None,
            Some((m, before)) => match met(m, ls[n - 1], rs[n - 1]) {
                None => None,
                Some((m, t)) => Some((m, before.push(t))),
            },
        }
    }
}

/// What the first `n` of the fields `ls` and `rs` have in common, one by one.
pub open spec fn met_fields(m: Meeting, ls: Seq<FieldTy>, rs: Seq<FieldTy>, n: nat) -> Option<
    (Meeting, Seq<FieldTy>),
>
    decreases ls, n,
{
    if n == 0 || n > ls.len() || n > rs.len() {
        Some((m, Seq::empty()))
    } else {
        match met_fields(m, ls, rs, (n - 1) as nat) {
            None => None,
            Some((m, before)) => match met(m, ls[n - 1].typ, rs[n - 1].typ) {
                None => None,
                Some((m, typ)) => Some((m, before.push(FieldTy { name: ls[n - 1].name, typ }))),
            },
        }
    }
}

/// What `l` and `r` have in common: what agrees is kept, and where they differ stands a variable, the
/// same one for the same pair.
pub open spec fn intersected(s: Inferred, l: Ty, r: Ty) -> Option<(Inferred, Ty)> {
    match (settled(s.subst, Seq::empty(), l), settled(s.subst, Seq::empty(), r)) {
        (Some(l), Some(r)) => match met(Meeting { s, pairs: Seq::empty() }, l, r) {
            Some((m, t)) => Some((m.s, t)),
            None => None,
        },
        _ => None,
    }
}

/// If `name` was bound before, its type becomes what it has in common with that of the binding before.
pub open spec fn name_intersected(s: Inferred, level: u32, name: Seq<char>) -> Option<Inferred> {
    match last_at(s.values, name, s.values.len()) {
        None => Some(s),
        Some(i) => match last_at(s.values, name, i as nat) {
            None => Some(s),
            Some(j) => match intersected(s, s.values[j].1, s.values[i].1) {
                None => None,
                Some((s, t)) => match finished(s, level, t) {
                    None => None,
                    Some((s, t)) => if i < s.values.len() {
                        Some(Inferred { values: s.values.update(i, (s.values[i].0, t)), ..s })
                    } else {
                        None
                    },
                },
            },
        },
    }
}

/// The name that a field of a pattern binds.
pub open spec fn field_name(field: PatternField) -> Option<Seq<char>> {
    match field.value {
        Some(pattern) => bound_name(pattern),
        None => Some(field.name.value@),
    }
}

/// The names that `pattern` binds, in order.
pub open spec fn names_bound(pattern: SpannedPattern) -> Seq<Option<Seq<char>>> {
    match pattern.value {
        Pattern::Ident(id) => seq![Some(id.name@)],
        Pattern::Constructor(_, args) => args@.map_values(|arg: SpannedPattern| bound_name(arg)),
        Pattern::Record { typ: _, types: _, fields } => fields@.map_values(
            |field: PatternField| field_name(field),
        ),
        _ => Seq::empty(),
    }
}

/// The first `n` of `names` intersected with what they were bound to before.
pub open spec fn names_intersected(
    s: Inferred,
    level: u32,
    names: Seq<Option<Seq<char>>>,
    n: nat,
) -> Option<Inferred>
    decreases n,
{
    if n == 0 || n > names.len() {
        Some(s)
    } else {
        match names_intersected(s, level, names, (n - 1) as nat) {
            None => None,
            Some(s) => match names[n - 1] {
                Some(name) => name_intersected(s, level, name),
                None => Some(s),
            },
        }
    }
}

/// The names of the first `n` of `bindings` intersected with what they were bound to before.
pub open spec fn bindings_intersected(
    s: Inferred,
    level: u32,
    bindings: Seq<ValueBinding>,
    n: nat,
) -> Option<Inferred>
    decreases n,
{
    if n == 0 || n > bindings.len() {
        Some(s)
    } else {
        match bindings_intersected(s, level, bindings, (n - 1) as nat) {
            None => None,
            Some(s) => {
                let names = names_bound(bindings[n - 1].name);
                names_intersected(s, level, names, names.len())
            },
        }
    }
}

proof fn met_all_before(m: Meeting, ls: Seq<Ty>, rs: Seq<Ty>, k: nat, n: nat)
    requires
        k <= n <= ls.len(),
        n <= rs.len(),
        met_all(m, ls, rs, n) is Some,
    ensures
        met_all(m, ls, rs, k) is Some,
    decreases n,
{
    if k < n {
        met_all_before(m, ls, rs, k, (n - 1) as nat);
    }
}

proof fn met_fields_before(m: Meeting, ls: Seq<FieldTy>, rs: Seq<FieldTy>, k: nat, n: nat)
    requires
        k <= n <= ls.len(),
        n <= rs.len(),
        met_fields(m, ls, rs, n) is Some,
    ensures
        met_fields(m, ls, rs, k) is Some,
    decreases n,
{
    if k < n {
        met_fields_before(m, ls, rs, k, (n - 1) as nat);
    }
}

proof fn names_intersected_before(
    s: Inferred,
    level: u32,
    names: Seq<Option<Seq<char>>>,
    k: nat,
    n: nat,
)
    requires
        k <= n <= names.len(),
        names_intersected(s, level, names, n) is Some,
    ensures
        names_intersected(s, level, names, k) is Some,
    decreases n,
{
    if k < n {
        names_intersected_before(s, level, names, k, (n - 1) as nat);
    }
}

proof fn bindings_intersected_before(
    s: Inferred,
    level: u32,
    bindings: Seq<ValueBinding>,
    k: nat,
    n: nat,
)
    requires
        k <= n <= bindings.len(),
        bindings_intersected(s, level, bindings, n) is Some,
    ensures
        bindings_intersected(s, level, bindings, k) is Some,
    decreases n,
{
    if k < n {
        bindings_intersected_before(s, level, bindings, k, (n - 1) as nat);
    }
}

/// Comparing types makes variables and nothing else.
pub proof fn met_keeps(m: Meeting, l: Ty, r: Ty)
    ensures
        met(m, l, r) matches Some((after, _)) ==> after.s == (Inferred {
            subst: after.s.subst,
            levels: after.s.levels,
            ..m.s
        }),
    decreases l, 0nat,
{
    parts_decrease(l);
    if !same_type(l, r) {
        match (l, r) {
            (Ty::Function(lk, la, lr), Ty::Function(rk, ra, rr)) if lk == rk => {
                met_keeps(m, *la, *ra);
                if let Some((m2, _)) = met(m, *la, *ra) {
                    met_keeps(m2, *lr, *rr);
                }
            },
            (Ty::App(lf, ls), Ty::App(rf, rs)) if ls.len() == rs.len() => {
                met_keeps(m, *lf, *rf);
                if let Some((m2, _)) = met(m, *lf, *rf) {
                    met_all_keeps(m2, ls, rs, ls.len());
                }
            },
            (Ty::Record(x), Ty::Record(y)) => {
                met_keeps(m, *x, *y);
            },
            (Ty::Variant(x), Ty::Variant(y)) => {
                met_keeps(m, *x, *y);
            },
            (Ty::ExtendRow(ls, x), Ty::ExtendRow(rs, y)) if same_names(ls, rs) => {
                met_fields_keeps(m, ls, rs, ls.len());
                if let Some((m2, _)) = met_fields(m, ls, rs, ls.len()) {
                    met_keeps(m2, *x, *y);
                }
            },
            (Ty::ExtendTypeRow(ls, x), Ty::ExtendTypeRow(rs, y)) if same_fields(ls, rs) => {
                met_keeps(m, *x, *y);
            },
            _ => {},
        }
    }
}

proof fn met_all_keeps(m: Meeting, ls: Seq<Ty>, rs: Seq<Ty>, n: nat)
    ensures
        met_all(m, ls, rs, n) matches Some((after, _)) ==> after.s == (Inferred {
            subst: after.s.subst,
            levels: after.s.levels,
            ..m.s
        }),
    decreases ls, n,
{
    if 0 < n <= ls.len() && n <= rs.len() {
        met_all_keeps(m, ls, rs, (n - 1) as nat);
        if let Some((m2, _)) = met_all(m, ls, rs, (n - 1) as nat) {
            assert(decreases_to!(ls => ls[n - 1]));
            met_keeps(m2, ls[n - 1], rs[n - 1]);
        }
    }
}

proof fn met_fields_keeps(m: Meeting, ls: Seq<FieldTy>, rs: Seq<FieldTy>, n: nat)
    ensures
        met_fields(m, ls, rs, n) matches Some((after, _)) ==> after.s == (Inferred {
            subst: after.s.subst,
            levels: after.s.levels,
            ..m.s
        }),
    decreases ls, n,
{
    if 0 < n <= ls.len() && n <= rs.len() {
        met_fields_keeps(m, ls, rs, (n - 1) as nat);
        if let Some((m2, _)) = met_fields(m, ls, rs, (n - 1) as nat) {
            assert(decreases_to!(ls => ls[n - 1]));
            met_keeps(m2, ls[n - 1].typ, rs[n - 1].typ);
        }
    }
}

pub open spec fn pairs_view(pairs: Seq<(ArcType, ArcType, ArcType)>) -> Seq<Pair> {
    pairs.map_values(
        |pair: (ArcType, ArcType, ArcType)| Pair { l: pair.0@, r: pair.1@, var: pair.2@ },
    )
}

fn find_pair(pairs: &Vec<(ArcType, ArcType, ArcType)>, l: &ArcType, r: &ArcType) -> (res: Option<
    ArcType,
>)
    ensures
        match res {
            Some(var) => paired(pairs_view(pairs@), l@, r@, 0) == Some(var@),
            None => paired(pairs_view(pairs@), l@, r@, 0) is None,
        },
{
    let ghost all = pairs_view(pairs@);
    let mut i: usize = 0;
    while i < pairs.len()
        invariant
            i <= pairs@.len(),
            all == pairs_view(pairs@),
            paired(all, l@, r@, 0) == paired(all, l@, r@, i as int),
        decreases pairs@.len() - i,
    {
        assert(all[i as int] == (Pair {
            l: pairs@[i as int].0@,
            r: pairs@[i as int].1@,
            var: pairs@[i as int].2@,
        }));
        if pairs[i].0.same(l) && pairs[i].1.same(r) {
            return Some(pairs[i].2.clone());
        }
        i += 1;
    }
    None
}

fn are_same_names(ls: &Vec<Field>, rs: &Vec<Field>) -> (res: bool)
    ensures
        res == same_names(fields_view(ls@), fields_view(rs@)),
{
    let ghost (l, r) = (fields_view(ls@), fields_view(rs@));
    if ls.len() != rs.len() {
        assert(l.len() != r.len());
        return false;
    }
    let mut i: usize = 0;
    while i < ls.len()
        invariant
            i <= ls@.len() == rs@.len(),
            l == fields_view(ls@),
            r == fields_view(rs@),
            forall|j: int| 0 <= j < i ==> (#[trigger] l[j]).name == r[j].name,
        decreases ls@.len() - i,
    {
        assert(l[i as int].name == ls@[i as int].name@);
        assert(r[i as int].name == rs@[i as int].name@);
        if ls[i].name != rs[i].name {
            return false;
        }
        i += 1;
    }
    true
}

impl<'a, E: TypeEnv> Typecheck<'a, E> {
    fn differ(
        &mut self,
        pairs: &mut Vec<(ArcType, ArcType, ArcType)>,
        l: &ArcType,
        r: &ArcType,
    ) -> (res: ArcType)
        requires
            differs(Meeting { s: old(self)@, pairs: pairs_view(old(pairs)@) }, l@, r@) is Some,
        ensures
            final(self).known() == old(self).known(),
            differs(Meeting { s: old(self)@, pairs: pairs_view(old(pairs)@) }, l@, r@) == Some(
                (Meeting { s: final(self)@, pairs: pairs_view(final(pairs)@) }, res@),
            ),
    {
        match find_pair(pairs, l, r) {
            Some(var) => var,
            None => {
                let var = self.new_var();
                pairs.push((l.clone(), r.clone(), var.clone()));
                assert(pairs_view(pairs@) =~= pairs_view(old(pairs)@).push(
                    Pair { l: l@, r: r@, var: var@ },
                ));
                var
            },
        }
    }

    #[verifier::rlimit(40)]
    fn meet(
        &mut self,
        pairs: &mut Vec<(ArcType, ArcType, ArcType)>,
        l: &ArcType,
        r: &ArcType,
    ) -> (res: ArcType)
        requires
            met(Meeting { s: old(self)@, pairs: pairs_view(old(pairs)@) }, l@, r@) is Some,
        ensures
            final(self).known() == old(self).known(),
            met(Meeting { s: old(self)@, pairs: pairs_view(old(pairs)@) }, l@, r@) == Some(
                (Meeting { s: final(self)@, pairs: pairs_view(final(pairs)@) }, res@),
            ),
        decreases l@, 1nat,
    {
        if l.same(r) {
            return l.clone();
        }
        proof {
            parts_decrease(l@);
        }
        match (l.as_type(), r.as_type()) {
            (Type::Function(lk, la, lr), Type::Function(rk, ra, rr)) => {
                if *lk == *rk {
                    let arg = self.meet(pairs, la, ra);
                    let ret = self.meet(pairs, lr, rr);
                    ArcType::new(Type::Function(*lk, arg, ret))
                } else {
                    self.differ(pairs, l, r)
                }
            },
            (Type::App(lf, ls), Type::App(rf, rs)) => {
                assert(types_view(ls@).len() == ls@.len());
                assert(types_view(rs@).len() == rs@.len());
                if ls.len() == rs.len() {
                    let f = self.meet(pairs, lf, rf);
                    let args = self.meet_all(pairs, ls, rs);
                    ArcType::new(Type::App(f, args))
                } else {
                    self.differ(pairs, l, r)
                }
            },
            (Type::Record(x), Type::Record(y)) => {
                let row = self.meet(pairs, x, y);
                ArcType::new(Type::Record(row))
            },
            (Type::Variant(x), Type::Variant(y)) => {
                let row = self.meet(pairs, x, y);
                ArcType::new(Type::Variant(row))
            },
            (
                Type::ExtendRow { fields: ls, rest: x },
                Type::ExtendRow { fields: rs, rest: y },
            ) => {
                if are_same_names(ls, rs) {
                    assert(fields_view(ls@).len() == ls@.len());
                    assert(fields_view(rs@).len() == rs@.len());
                    let fields = self.meet_fields(pairs, ls, rs);
                    let rest = self.meet(pairs, x, y);
                    ArcType::new(Type::ExtendRow { fields, rest })
                } else {
                    self.differ(pairs, l, r)
                }
            },
            (
                Type::ExtendTypeRow { types: ls, rest: x },
                Type::ExtendTypeRow { types: rs, rest: y },
            ) => {
                if same_type_field_vec(ls, rs) {
                    let rest = self.meet(pairs, x, y);
                    ArcType::new(Type::ExtendTypeRow { types: clone_type_fields(ls), rest })
                } else {
                    self.differ(pairs, l, r)
                }
            },
            _ => self.differ(pairs, l, r),
        }
    }

    fn meet_all(
        &mut self,
        pairs: &mut Vec<(ArcType, ArcType, ArcType)>,
        ls: &Vec<ArcType>,
        rs: &Vec<ArcType>,
    ) -> (res: Vec<ArcType>)
        requires
            ls@.len() == rs@.len(),
            met_all(
                Meeting { s: old(self)@, pairs: pairs_view(old(pairs)@) },
                types_view(ls@),
                types_view(rs@),
                ls@.len(),
            ) is Some,
        ensures
            final(self).known() == old(self).known(),
            met_all(
                Meeting { s: old(self)@, pairs: pairs_view(old(pairs)@) },
                types_view(ls@),
                types_view(rs@),
                ls@.len(),
            ) == Some(
                (
                    Meeting { s: final(self)@, pairs: pairs_view(final(pairs)@) },
                    types_view(res@),
                ),
            ),
        decreases types_view(ls@), 0nat,
    {
        let ghost m = Meeting { s: self@, pairs: pairs_view(pairs@) };
        let ghost (a, b) = (types_view(ls@), types_view(rs@));
        let mut res: Vec<ArcType> = Vec::new();
        let mut i: usize = 0;
        assert(types_view(res@) =~= Seq::<Ty>::empty());
        while i < ls.len()
            invariant
                i <= ls@.len() == rs@.len(),
                a == types_view(ls@),
                b == types_view(rs@),
                self.known() == old(self).known(),
                met_all(m, a, b, ls@.len()) is Some,
                met_all(m, a, b, i as nat) == Some(
                    (Meeting { s: self@, pairs: pairs_view(pairs@) }, types_view(res@)),
                ),
            decreases ls@.len() - i,
        {
            proof {
                met_all_before(m, a, b, (i + 1) as nat, ls@.len());
                assert(a[i as int] == ls@[i as int]@);
                assert(b[i as int] == rs@[i as int]@);
                assert(decreases_to!(a => a[i as int]));
            }
            let ghost before = res@;
            let t = self.meet(pairs, &ls[i], &rs[i]);
            res.push(t);
            assert(types_view(res@) =~= types_view(before).push(t@));
            i += 1;
        }
        res
    }

    fn meet_fields(
        &mut self,
        pairs: &mut Vec<(ArcType, ArcType, ArcType)>,
        ls: &Vec<Field>,
        rs: &Vec<Field>,
    ) -> (res: Vec<Field>)
        requires
            ls@.len() == rs@.len(),
            met_fields(
                Meeting { s: old(self)@, pairs: pairs_view(old(pairs)@) },
                fields_view(ls@),
                fields_view(rs@),
                ls@.len(),
            ) is Some,
        ensures
            final(self).known() == old(self).known(),
            met_fields(
                Meeting { s: old(self)@, pairs: pairs_view(old(pairs)@) },
                fields_view(ls@),
                fields_view(rs@),
                ls@.len(),
            ) == Some(
                (
                    Meeting { s: final(self)@, pairs: pairs_view(final(pairs)@) },
                    fields_view(res@),
                ),
            ),
        decreases fields_view(ls@), 0nat,
    {
        let ghost m = Meeting { s: self@, pairs: pairs_view(pairs@) };
        let ghost (a, b) = (fields_view(ls@), fields_view(rs@));
        let mut res: Vec<Field> = Vec::new();
        let mut i: usize = 0;
        assert(fields_view(res@) =~= Seq::<FieldTy>::empty());
        while i < ls.len()
            invariant
                i <= ls@.len() == rs@.len(),
                a == fields_view(ls@),
                b == fields_view(rs@),
                self.known() == old(self).known(),
                met_fields(m, a, b, ls@.len()) is Some,
                met_fields(m, a, b, i as nat) == Some(
                    (Meeting { s: self@, pairs: pairs_view(pairs@) }, fields_view(res@)),
                ),
            decreases ls@.len() - i,
        {
            proof {
                met_fields_before(m, a, b, (i + 1) as nat, ls@.len());
                assert(a[i as int].typ == ls@[i as int].typ@);
                assert(a[i as int].name == ls@[i as int].name@);
                assert(b[i as int].typ == rs@[i as int].typ@);
                assert(decreases_to!(a => a[i as int]));
            }
            let ghost before = res@;
            let typ = self.meet(pairs, &ls[i].typ, &rs[i].typ);
            res.push(Field { name: ls[i].name.clone(), typ });
            assert(fields_view(res@) =~= fields_view(before).push(
                FieldTy { name: a[i as int].name, typ: typ@ },
            ));
            i += 1;
        }
        res
    }

    /// What `l` and `r` have in common.
    fn intersection(&mut self, l: &ArcType, r: &ArcType) -> (res: ArcType)
        requires
            intersected(old(self)@, l@, r@) is Some,
        ensures
            final(self).known() == old(self).known(),
            intersected(old(self)@, l@, r@) == Some((final(self)@, res@)),
    {
        let l = self.settle_type(l);
        let r = self.settle_type(r);
        let mut pairs: Vec<(ArcType, ArcType, ArcType)> = Vec::new();
        assert(pairs_view(pairs@) =~= Seq::<Pair>::empty());
        self.meet(&mut pairs, &l, &r)
    }

    /// If `name` was bound before, gives it the type that it has in common with that binding.
    fn intersect_type(&mut self, level: u32, name: &Symbol)
        requires
            name_intersected(old(self)@, level, name@) is Some,
        ensures
            final(self).known() == old(self).known(),
            name_intersected(old(self)@, level, name@) == Some(final(self)@),
    {
        let count: usize = self.value_count();
        if let Some(i) = self.value_before(name, count) {
            if let Some(j) = self.value_before(name, i) {
                let (l, r) = (self.value_type(j), self.value_type(i));
                let typ = self.intersection(&l, &r);
                let typ = self.finish_type(level, &typ);
                self.set_value_type(i, typ);
            }
        }
    }

    fn intersect_names(&mut self, level: u32, names: &Vec<Option<Symbol>>)
        requires
            names_intersected(old(self)@, level, opt_names(names@), names@.len()) is Some,
        ensures
            final(self).known() == old(self).known(),
            names_intersected(old(self)@, level, opt_names(names@), names@.len()) == Some(
                final(self)@,
            ),
    {
        let ghost s = self@;
        let ghost all = opt_names(names@);
        let mut i: usize = 0;
        while i < names.len()
            invariant
                i <= names@.len(),
                all == opt_names(names@),
                self.known() == old(self).known(),
                names_intersected(s, level, all, names@.len()) is Some,
                names_intersected(s, level, all, i as nat) == Some(self@),
            decreases names@.len() - i,
        {
            proof {
                names_intersected_before(s, level, all, (i + 1) as nat, names@.len());
                assert(all[i as int] == opt_name(names@[i as int]));
            }
            if let Some(name) = &names[i] {
                self.intersect_type(level, name);
            }
            i += 1;
        }
    }

    /// Gives each name that `bindings` bind again the type that its bindings have in common.
    pub(crate) fn finish_bindings(&mut self, level: u32, bindings: &Vec<ValueBinding>)
        requires
            bindings_intersected(old(self)@, level, bindings@, bindings@.len()) is Some,
        ensures
            final(self).known() == old(self).known(),
            bindings_intersected(old(self)@, level, bindings@, bindings@.len()) == Some(
                final(self)@,
            ),
    {
        let ghost s = self@;
        let mut i: usize = 0;
        while i < bindings.len()
            invariant
                i <= bindings@.len(),
                self.known() == old(self).known(),
                bindings_intersected(s, level, bindings@, bindings@.len()) is Some,
                bindings_intersected(s, level, bindings@, i as nat) == Some(self@),
            decreases bindings@.len() - i,
        {
            proof {
                bindings_intersected_before(s, level, bindings@, (i + 1) as nat, bindings@.len());
            }
            let names = pattern_names(&bindings[i].name);
            assert(opt_names(names@).len() == names@.len());
            self.intersect_names(level, &names);
            i += 1;
        }
    }
}

pub open spec fn opt_name(name: Option<Symbol>) -> Option<Seq<char>> {
    match name {
        Some(name) => Some(name@),
        None => None,
    }
}

pub open spec fn opt_names(names: Seq<Option<Symbol>>) -> Seq<Option<Seq<char>>> {
    names.map_values(|name: Option<Symbol>| opt_name(name))
}

/// The names that `pattern` binds, in order.
pub(crate) fn pattern_names(pattern: &SpannedPattern) -> (res: Vec<Option<Symbol>>)
    ensures
        opt_names(res@) == names_bound(*pattern),
{
    let mut res: Vec<Option<Symbol>> = Vec::new();
    match &pattern.value {
        Pattern::Ident(id) => {
            res.push(Some(id.name.clone()));
        },
        Pattern::Constructor(_, args) => {
            let mut i: usize = 0;
            while i < args.len()
                invariant
                    i <= args@.len(),
                    res@.len() == i,
                    forall|j: int| 0 <= j < i ==> opt_name(#[trigger] res@[j]) == bound_name(args@[j]),
                decreases args@.len() - i,
            {
                res.push(name_of_pattern(&args[i]));
                i += 1;
            }
        },
        Pattern::Record { typ: _, types: _, fields } => {
            let mut i: usize = 0;
            while i < fields.len()
                invariant
                    i <= fields@.len(),
                    res@.len() == i,
                    forall|j: int|
                        0 <= j < i ==> opt_name(#[trigger] res@[j]) == field_name(fields@[j]),
                decreases fields@.len() - i,
            {
                let name = match &fields[i].value {
                    Some(pattern) => name_of_pattern(pattern),
                    None => Some(fields[i].name.value.clone()),
                };
                res.push(name);
                i += 1;
            }
        },
        _ => {},
    }
    assert(opt_names(res@) =~= names_bound(*pattern));
    res
}

} // verus!
