//! What unification keeps and what it achieves: it only adds to what is known of variables, and
//! types that unify agree.

use vstd::prelude::*;
use crate::resolve::{expanded, removed, Removed};
use crate::substitution::{actual, actual_within, bound, Subst};
use crate::types::model::{same_fields, same_type, AliasTy, FieldTy, Ty};
use crate::types::query::{alias_name, name_of};
use crate::types::rows::{row_fields, row_rest, type_fields};
use crate::types::walk::new_or;
use crate::types::TypeVariable;
use crate::unify_type::{
    alias_search, aligned, common_alias, counterparts, cut, extended_left, extended_right,
    field_names, field_types, fresh, full_row, has_all, is_row, lacking, matched, matched_all,
    matched_in_order, parameter, row_part, same_names, settled, shared, unified, united,
    united_rows, updated_fields, with_alias, without_aliases, zipped, zipped_parts, zipped_rows,
    Attempt, Fault, Parameter, RowSoFar, Surroundings, Tried, Unified,
};

verus! {

/// `after` has all that `before` has: the bindings of variables, the faults and the aliases that are
/// being expanded. Only more may have come.
pub open spec fn adds_to(before: Unified, after: Unified) -> bool {
    &&& before.subst.len() <= after.subst.len()
    &&& forall|i: int|
        0 <= i < before.subst.len() && (#[trigger] before.subst[i]) is Some ==> after.subst[i]
            == before.subst[i]
    &&& before.faults.len() <= after.faults.len()
    &&& after.faults.take(before.faults.len() as int) == before.faults
    &&& before.reduced.len() <= after.reduced.len()
    &&& after.reduced.take(before.reduced.len() as int) == before.reduced
    &&& after.context == before.context
}

proof fn adds_nothing(s: Unified)
    ensures
        adds_to(s, s),
{
    assert(s.faults.take(s.faults.len() as int) =~= s.faults);
    assert(s.reduced.take(s.reduced.len() as int) =~= s.reduced);
}

proof fn adds_through(a: Unified, b: Unified, c: Unified)
    requires
        adds_to(a, b),
        adds_to(b, c),
    ensures
        adds_to(a, c),
{
    assert(c.faults.take(b.faults.len() as int).take(a.faults.len() as int) =~= c.faults.take(
        a.faults.len() as int,
    ));
    assert(c.reduced.take(b.reduced.len() as int).take(a.reduced.len() as int) =~= c.reduced.take(
        a.reduced.len() as int,
    ));
    assert forall|i: int| 0 <= i < a.subst.len() && (
    #[trigger] a.subst[i]) is Some implies c.subst[i] == a.subst[i] by {
        assert(b.subst[i] == a.subst[i]);
        assert(b.subst[i] is Some);
    }
}

proof fn fail_adds(s: Unified, fault: Fault)
    ensures
        adds_to(s, s.fail(fault)),
{
    assert(s.faults.push(fault).take(s.faults.len() as int) =~= s.faults);
    assert(s.reduced.take(s.reduced.len() as int) =~= s.reduced);
}

proof fn fresh_adds(s: Unified)
    ensures
        fresh(s) matches Some((after, _)) ==> adds_to(s, after) && after.reduced == s.reduced,
{
    adds_nothing(s);
}

/// What a variable stands for is not a variable that is bound.
proof fn actual_is_unbound(subst: Subst, t: Ty, n: nat)
    ensures
        actual_within(subst, t, n) matches Some(Ty::Variable(var)) ==> bound(subst, var.id) is None,
    decreases n,
{
    if let Ty::Variable(var) = t {
        if let Some(next) = bound(subst, var.id) {
            if n > 0 {
                actual_is_unbound(subst, next, (n - 1) as nat);
            }
        }
    }
}

proof fn united_adds(f: nat, s: Unified, var: TypeVariable, t: Ty, new: Option<Ty>)
    requires
        bound(s.subst, var.id) is None,
    ensures
        united(f, s, var, t, new) matches Some((after, _)) ==> adds_to(s, after) && after.reduced
            == s.reduced,
{
    adds_nothing(s);
}

proof fn settled_adds(s: Unified, tried: Tried)
    requires
        tried matches Some((after, _)) ==> adds_to(s, after) && after.reduced == s.reduced,
    ensures
        settled(tried) matches Some((after, _)) ==> adds_to(s, after) && after.reduced == s.reduced,
{
    if let Some((after, Attempt::Failed(fault))) = tried {
        fail_adds(after, fault);
        fresh_adds(after.fail(fault));
        adds_through(s, after, after.fail(fault));
        if let Some((last, _)) = fresh(after.fail(fault)) {
            adds_through(s, after.fail(fault), last);
        }
    }
}

/// Matching types only adds: what variables were bound to, and what was reported, stays.
proof fn matched_adds(f: nat, around: Surroundings, s: Unified, l: Ty, r: Ty)
    ensures
        matched(f, around, s, l, r) matches Some((after, _)) ==> adds_to(s, after) && after.reduced
            == s.reduced,
    decreases f, 9nat,
{
    if f > 0 {
        actual_is_unbound(s.subst, l, s.subst.len());
        actual_is_unbound(s.subst, r, s.subst.len());
        adds_nothing(s);
        if let (Some(l), Some(r)) = (actual(s.subst, l), actual(s.subst, r)) {
            match (l, r) {
                (Ty::Variable(a), Ty::Variable(b)) if a.id == b.id => {},
                (Ty::Generic(param), Ty::Variable(var)) => {
                    match parameter(around, param, var) {
                        Parameter::Is(left) => {
                            united_adds(f, s, var, left, None);
                            settled_adds(s, united(f, s, var, left, None));
                        },
                        Parameter::Escapes => {
                            fail_adds(s, Fault::UnableToGeneralize(param.id));
                        },
                    }
                },
                (_, Ty::Variable(var)) => {
                    united_adds(f, s, var, l, None);
                    settled_adds(s, united(f, s, var, l, None));
                },
                (Ty::Variable(var), _) => {
                    united_adds(f, s, var, r, Some(r));
                    settled_adds(s, united(f, s, var, r, Some(r)));
                },
                _ => {
                    zipped_adds((f - 1) as nat, around, s, l, r);
                    settled_adds(s, zipped((f - 1) as nat, around, s, l, r));
                },
            }
        }
    }
}

proof fn alias_found_adds(
    f: nat,
    infos: Map<Seq<char>, AliasTy>,
    reduced: Seq<Seq<char>>,
    t: Ty,
    goal: Seq<char>,
    did: bool,
)
    ensures
        alias_search(f, infos, reduced, t, goal, did) matches Some((after, _)) ==> reduced.len()
            <= after.len() && after.take(reduced.len() as int) == reduced,
    decreases f,
{
    assert(reduced.take(reduced.len() as int) =~= reduced);
    if let (Some(next), Some(alias)) = (expanded(infos, t), alias_name(t)) {
        if f > 0 {
            let more = reduced.push(alias);
            alias_found_adds((f - 1) as nat, infos, more, next, goal, true);
            if let Some((after, _)) = alias_search((f - 1) as nat, infos, more, next, goal, true) {
                assert(more.take(reduced.len() as int) =~= reduced);
                assert(after.take(more.len() as int).take(reduced.len() as int) =~= after.take(
                    reduced.len() as int,
                ));
            }
        }
    }
}

proof fn common_alias_adds(f: nat, around: Surroundings, s: Unified, l: Ty, r: Ty)
    ensures
        common_alias(f, around.infos, s.reduced, l, r) matches Some(common) ==> adds_to(
            s,
            Unified { reduced: common.reduced, ..s },
        ),
{
    adds_nothing(s);
    if let Some(goal) = name_of(r) {
        alias_found_adds(f, around.infos, s.reduced, l, goal, false);
    }
    if let Some(goal) = name_of(l) {
        alias_found_adds(f, around.infos, s.reduced, r, goal, false);
    }
}

proof fn zipped_adds(f: nat, around: Surroundings, s: Unified, l: Ty, r: Ty)
    ensures
        zipped(f, around, s, l, r) matches Some((after, _)) ==> adds_to(s, after) && after.reduced
            == s.reduced,
    decreases f, 8nat,
{
    common_alias_adds(f, around, s, l, r);
    if let Some(common) = common_alias(f, around.infos, s.reduced, l, r) {
        let start = Unified { reduced: common.reduced, ..s };
        zipped_parts_adds(f, around, start, common.l, common.r);
        if let Some((after, _)) = zipped_parts(f, around, start, common.l, common.r) {
            adds_through(s, start, after);
            assert(cut(after.reduced, s.reduced.len()) == s.reduced);
            assert(s.reduced.take(s.reduced.len() as int) =~= s.reduced);
        }
    }
}

proof fn zipped_parts_adds(f: nat, around: Surroundings, s: Unified, l: Ty, r: Ty)
    ensures
        zipped_parts(f, around, s, l, r) matches Some((after, _)) ==> adds_to(s, after),
    decreases f, 7nat,
{
    adds_nothing(s);
    if f > 0 {
        let g = (f - 1) as nat;
        match (l, r) {
            (Ty::App(lf, ls), Ty::App(rf, rs)) => {
                let (lf2, ls2, rf2, rs2) = aligned(*lf, ls, *rf, rs);
                matched_adds(g, around, s, lf2, rf2);
                if let Some((t, _)) = matched(g, around, s, lf2, rf2) {
                    matched_all_adds(g, around, t, ls2, rs2, ls2.len());
                    if let Some((u, _)) = matched_all(g, around, t, ls2, rs2, ls2.len()) {
                        adds_through(s, t, u);
                    }
                }
            },
            (Ty::Function(lk, la, lr), Ty::Function(rk, ra, rr)) if lk == rk => {
                matched_adds(g, around, s, *la, *ra);
                if let Some((t, _)) = matched(g, around, s, *la, *ra) {
                    matched_adds(g, around, t, *lr, *rr);
                    if let Some((u, _)) = matched(g, around, t, *lr, *rr) {
                        adds_through(s, t, u);
                    }
                }
            },
            (Ty::Record(lrow), Ty::Record(rrow)) => {
                matched_adds(g, around, Unified { context: Some((l, r)), ..s }, *lrow, *rrow);
            },
            (Ty::Ident(id), Ty::Alias(alias)) if id == alias.data().name => {},
            (Ty::Alias(alias), Ty::Ident(id)) if id == alias.data().name => {},
            _ => {
                if is_row(l) && is_row(r) {
                    zipped_rows_adds(g, around, s, l, r);
                } else if !same_type(l, r) {
                    with_alias_adds(g, around, s, l, r);
                }
            },
        }
    }
}

proof fn matched_all_adds(
    f: nat,
    around: Surroundings,
    s: Unified,
    ls: Seq<Ty>,
    rs: Seq<Ty>,
    n: nat,
)
    ensures
        matched_all(f, around, s, ls, rs, n) matches Some((after, _)) ==> adds_to(s, after),
    decreases f, 10nat, n,
{
    adds_nothing(s);
    if 0 < n <= ls.len() && n <= rs.len() {
        matched_all_adds(f, around, s, ls, rs, (n - 1) as nat);
        if let Some((t, _)) = matched_all(f, around, s, ls, rs, (n - 1) as nat) {
            matched_adds(f, around, t, ls[n - 1], rs[n - 1]);
            if let Some((u, _)) = matched(f, around, t, ls[n - 1], rs[n - 1]) {
                adds_through(s, t, u);
            }
        }
    }
}

proof fn matched_in_order_adds(
    f: nat,
    around: Surroundings,
    s: Unified,
    ls: Seq<FieldTy>,
    rs: Seq<FieldTy>,
    n: nat,
)
    ensures
        matched_in_order(f, around, s, ls, rs, n) matches Some((after, _)) ==> adds_to(s, after),
    decreases f, 10nat, n,
{
    adds_nothing(s);
    if 0 < n <= ls.len() && n <= rs.len() {
        matched_in_order_adds(f, around, s, ls, rs, (n - 1) as nat);
        if let Some((t, _)) = matched_in_order(f, around, s, ls, rs, (n - 1) as nat) {
            if ls[n - 1].name != rs[n - 1].name {
                let fault = Fault::FieldMismatch(ls[n - 1].name, rs[n - 1].name);
                fail_adds(t, fault);
                adds_through(s, t, t.fail(fault));
            } else {
                matched_adds(f, around, t, ls[n - 1].typ, rs[n - 1].typ);
                if let Some((u, _)) = matched(f, around, t, ls[n - 1].typ, rs[n - 1].typ) {
                    adds_through(s, t, u);
                }
            }
        }
    }
}

proof fn zipped_rows_adds(f: nat, around: Surroundings, s: Unified, l: Ty, r: Ty)
    ensures
        zipped_rows(f, around, s, l, r) matches Some((after, _)) ==> adds_to(s, after),
    decreases f, 12nat,
{
    adds_nothing(s);
    let (lp, rp) = (row_part(l), row_part(r));
    let (lt, rt) = (field_types(lp.fields), field_types(rp.fields));
    if same_names(lp.fields, rp.fields) && same_fields(lp.types, rp.types) {
        matched_all_adds(f, around, s, lt, rt, lp.fields.len());
        if let Some((t, _)) = matched_all(f, around, s, lt, rt, lp.fields.len()) {
            matched_adds(f, around, t, lp.rest, rp.rest);
            if let Some((u, _)) = matched(f, around, t, lp.rest, rp.rest) {
                adds_through(s, t, u);
            }
        }
    } else if lp.rest is EmptyRow && rp.rest is EmptyRow && lp.fields.len() == rp.fields.len() {
        let n = lp.fields.len();
        matched_in_order_adds(f, around, s, lp.fields, rp.fields, n);
        if let Some((t, _)) = matched_in_order(f, around, s, lp.fields, rp.fields, n) {
            matched_adds(f, around, t, lp.rest, rp.rest);
            if let Some((u, _)) = matched(f, around, t, lp.rest, rp.rest) {
                adds_through(s, t, u);
            }
        }
    } else {
        united_rows_adds(f, around, s, l, r);
    }
}

proof fn extended_right_adds(
    f: nat,
    around: Surroundings,
    row: RowSoFar,
    r: Ty,
    types: Seq<FieldTy>,
    fields: Seq<FieldTy>,
)
    ensures
        extended_right(f, around, row, r, types, fields) matches Some(after) ==> adds_to(
            row.s,
            after.s,
        ),
    decreases f, 10nat,
{
    adds_nothing(row.s);
    if fields.len() > 0 {
        if row_rest(r) is EmptyRow {
            let context = match row.s.context {
                Some((_, r)) => r,
                None => r,
            };
            fail_adds(row.s, Fault::MissingFields(context, field_names(fields)));
        } else {
            fresh_adds(row.s);
            if let Some((s, var)) = fresh(row.s) {
                matched_adds(f, around, s, full_row(types, fields, var), row_rest(r));
                if let Some((t, _)) = matched(
                    f,
                    around,
                    s,
                    full_row(types, fields, var),
                    row_rest(r),
                ) {
                    adds_through(row.s, s, t);
                }
            }
        }
    }
}

proof fn extended_left_adds(
    f: nat,
    around: Surroundings,
    row: RowSoFar,
    l: Ty,
    types: Seq<FieldTy>,
    fields: Seq<FieldTy>,
)
    ensures
        extended_left(f, around, row, l, types, fields) matches Some(after) ==> adds_to(
            row.s,
            after.s,
        ),
    decreases f, 10nat,
{
    adds_nothing(row.s);
    if fields.len() > 0 {
        if row_rest(l) is EmptyRow {
            let context = match row.s.context {
                Some((l, _)) => l,
                None => l,
            };
            fail_adds(row.s, Fault::MissingFields(context, field_names(fields)));
        } else {
            fresh_adds(row.s);
            if let Some((s, var)) = fresh(row.s) {
                matched_adds(f, around, s, row_rest(l), full_row(types, fields, var));
                if let Some((t, _)) = matched(
                    f,
                    around,
                    s,
                    row_rest(l),
                    full_row(types, fields, var),
                ) {
                    adds_through(row.s, s, t);
                }
            }
        }
    }
}

proof fn united_rows_adds(f: nat, around: Surroundings, s: Unified, l: Ty, r: Ty)
    ensures
        united_rows(f, around, s, l, r) matches Some((after, _)) ==> adds_to(s, after),
    decreases f, 11nat,
{
    adds_nothing(s);
    let (lt, rt) = (type_fields(l), type_fields(r));
    let (lf, rf) = (row_fields(l), row_fields(r));
    let (types, rtypes) = (shared(lt, rt, lt.len()), counterparts(lt, rt, lt.len()));
    if same_fields(types, rtypes) {
        let both = shared(lf, rf, lf.len());
        let (a, b) = (field_types(both), field_types(counterparts(lf, rf, lf.len())));
        matched_all_adds(f, around, s, a, b, both.len());
        if let Some((t, news)) = matched_all(f, around, s, a, b, both.len()) {
            let row = RowSoFar {
                s: t,
                types,
                fields: updated_fields(both, news),
                rest: row_rest(r),
            };
            let (mt, mf) = (lacking(lt, rt, lt.len()), lacking(lf, rf, lf.len()));
            extended_right_adds(f, around, row, r, mt, mf);
            if let Some(row2) = extended_right(f, around, row, r, mt, mf) {
                adds_through(s, t, row2.s);
                let (nt, nf) = (lacking(rt, lt, rt.len()), lacking(rf, lf, rf.len()));
                extended_left_adds(f, around, row2, l, nt, nf);
                if let Some(row3) = extended_left(f, around, row2, l, nt, nf) {
                    adds_through(s, row2.s, row3.s);
                }
            }
        }
    }
}

proof fn without_aliases_adds(
    f: nat,
    infos: Map<Seq<char>, AliasTy>,
    reduced: Seq<Seq<char>>,
    t: Ty,
    changed: bool,
)
    ensures
        without_aliases(f, infos, reduced, t, changed) matches Some((after, _)) ==> reduced.len()
            <= after.len() && after.take(reduced.len() as int) == reduced,
    decreases f,
{
    assert(reduced.take(reduced.len() as int) =~= reduced);
    match removed(infos, reduced, t) {
        Removed::Stuck(name) => {
            assert(reduced.push(name).take(reduced.len() as int) =~= reduced);
        },
        Removed::Expanded(name, next) => {
            if f > 0 {
                let more = reduced.push(name);
                without_aliases_adds((f - 1) as nat, infos, more, next, true);
                if let Some((after, _)) = without_aliases((f - 1) as nat, infos, more, next, true) {
                    assert(more.take(reduced.len() as int) =~= reduced);
                    assert(after.take(more.len() as int).take(reduced.len() as int) =~= after.take(
                        reduced.len() as int,
                    ));
                }
            }
        },
        _ => {},
    }
}

proof fn with_alias_adds(f: nat, around: Surroundings, s: Unified, l: Ty, r: Ty)
    ensures
        with_alias(f, around, s, l, r) matches Some((after, _)) ==> adds_to(s, after),
    decreases f, 10nat,
{
    adds_nothing(s);
    without_aliases_adds(f, around.infos, s.reduced, l, false);
    if let Some((reduced, new_l)) = without_aliases(f, around.infos, s.reduced, l, false) {
        let s1 = Unified { reduced, ..s };
        assert(adds_to(s, s1));
        if let Ok(new_l) = new_l {
            without_aliases_adds(f, around.infos, reduced, r, false);
            if let Some((reduced, new_r)) = without_aliases(f, around.infos, reduced, r, false) {
                let s2 = Unified { reduced, ..s };
                adds_nothing(s1);
                assert(adds_to(s1, s2));
                adds_through(s, s1, s2);
                if let Ok(new_r) = new_r {
                    matched_adds(f, around, s2, new_or(new_l, l), new_or(new_r, r));
                    if let Some((t, _)) = matched(
                        f,
                        around,
                        s2,
                        new_or(new_l, l),
                        new_or(new_r, r),
                    ) {
                        adds_through(s, s2, t);
                    }
                }
            }
        }
    }
}

/// Unification only adds: a variable that is bound stays bound to the same type, what was reported
/// stays reported, and the aliases and the records that it is inside of are the same as before.
pub proof fn unification_only_adds(around: Surroundings, s: Unified, l: Ty, r: Ty)
    ensures
        unified(around, s, l, r) matches Some((after, _)) ==> adds_to(s, after) && after.reduced
            == s.reduced,
{
    if exists|f: nat| (#[trigger] matched(f, around, s, l, r)) is Some {
        let f = choose|f: nat| (#[trigger] matched(f, around, s, l, r)) is Some;
        matched_adds(f, around, s, l, r);
    }
}

/// The types that stand at the same place agree.
pub open spec fn all_agree(agree: spec_fn(Ty, Ty) -> bool, ls: Seq<Ty>, rs: Seq<Ty>) -> bool {
    &&& ls.len() == rs.len()
    &&& forall|i: int| 0 <= i < ls.len() ==> agree(#[trigger] ls[i], rs[i])
}

/// The first `n` of the fields have the same names and their types agree.
pub open spec fn in_order_agree(
    agree: spec_fn(Ty, Ty) -> bool,
    ls: Seq<FieldTy>,
    rs: Seq<FieldTy>,
    n: nat,
) -> bool {
    &&& n <= ls.len()
    &&& n <= rs.len()
    &&& forall|i: int|
        0 <= i < n ==> (#[trigger] ls[i]).name == rs[i].name && agree(ls[i].typ, rs[i].typ)
}

/// The parts of `l` and `r` agree.
pub open spec fn parts_agree(agree: spec_fn(Ty, Ty) -> bool, l: Ty, r: Ty) -> bool {
    match (l, r) {
        (Ty::App(lf, ls), Ty::App(rf, rs)) => {
            let (lf2, ls2, rf2, rs2) = aligned(*lf, ls, *rf, rs);
            agree(lf2, rf2) && all_agree(agree, ls2, rs2)
        },
        (Ty::Function(lk, la, lr), Ty::Function(rk, ra, rr)) => lk == rk && agree(*la, *ra)
            && agree(*lr, *rr),
        (Ty::Record(lrow), Ty::Record(rrow)) => agree(*lrow, *rrow),
        _ => false,
    }
}

/// One of the types is the name of the other.
pub open spec fn named_by(l: Ty, r: Ty) -> bool {
    match (l, r) {
        (Ty::Ident(id), Ty::Alias(alias)) => id == alias.data().name,
        (Ty::Alias(alias), Ty::Ident(id)) => id == alias.data().name,
        _ => false,
    }
}

/// What stands first in both rows has the same names, and all of it agrees.
pub open spec fn same_rows_agree(agree: spec_fn(Ty, Ty) -> bool, l: Ty, r: Ty) -> bool {
    let (lp, rp) = (row_part(l), row_part(r));
    &&& same_names(lp.fields, rp.fields)
    &&& same_fields(lp.types, rp.types)
    &&& all_agree(agree, field_types(lp.fields), field_types(rp.fields))
    &&& agree(lp.rest, rp.rest)
}

/// Neither row can be extended, both have as many fields, and those agree in order.
pub open spec fn closed_rows_agree(agree: spec_fn(Ty, Ty) -> bool, l: Ty, r: Ty) -> bool {
    let (lp, rp) = (row_part(l), row_part(r));
    &&& lp.rest is EmptyRow
    &&& rp.rest is EmptyRow
    &&& has_all(type_fields(r), type_fields(l))
    &&& lp.fields.len() == rp.fields.len()
    &&& in_order_agree(agree, lp.fields, rp.fields, lp.fields.len())
}

/// The fields that both rows have agree, and what one of them lacks is in its rest.
pub open spec fn open_rows_agree(agree: spec_fn(Ty, Ty) -> bool, l: Ty, r: Ty) -> bool {
    let (lt, rt) = (type_fields(l), type_fields(r));
    let (lf, rf) = (row_fields(l), row_fields(r));
    &&& same_fields(shared(lt, rt, lt.len()), counterparts(lt, rt, lt.len()))
    &&& all_agree(
        agree,
        field_types(shared(lf, rf, lf.len())),
        field_types(counterparts(lf, rf, lf.len())),
    )
    &&& lacking(lf, rf, lf.len()).len() > 0 ==> exists|rest: Ty|
        agree(
            #[trigger] full_row(lacking(lt, rt, lt.len()), lacking(lf, rf, lf.len()), rest),
            row_rest(r),
        )
    &&& lacking(rf, lf, rf.len()).len() > 0 ==> exists|rest: Ty|
        agree(
            row_rest(l),
            #[trigger] full_row(lacking(rt, lt, rt.len()), lacking(rf, lf, rf.len()), rest),
        )
}

/// The parameter `l` of a signature was instantiated with `r`.
pub open spec fn instantiated_by(around: Surroundings, l: Ty, r: Ty) -> bool {
    match (l, around.signature) {
        (Ty::Generic(param), Some((variables, _))) => variables.dom().contains(param.id)
            && variables[param.id] == r,
        _ => false,
    }
}

/// One of the types is a variable, and what it is bound to agrees with the other.
pub open spec fn bindings_agree(
    subst: Subst,
    agree: spec_fn(Ty, Ty) -> bool,
    l: Ty,
    r: Ty,
) -> bool {
    ||| l matches Ty::Variable(var) && bound(subst, var.id) matches Some(t) && agree(t, r)
    ||| r matches Ty::Variable(var) && bound(subst, var.id) matches Some(t) && agree(l, t)
}

/// One of the types is an alias, and what it expands to agrees with the other.
pub open spec fn expansions_agree(
    infos: Map<Seq<char>, AliasTy>,
    agree: spec_fn(Ty, Ty) -> bool,
    l: Ty,
    r: Ty,
) -> bool {
    ||| expanded(infos, l) matches Some(t) && agree(t, r)
    ||| expanded(infos, r) matches Some(t) && agree(l, t)
}

/// `l` and `r` are the same variable.
pub open spec fn same_variable(l: Ty, r: Ty) -> bool {
    match (l, r) {
        (Ty::Variable(a), Ty::Variable(b)) => a.id == b.id,
        _ => false,
    }
}

/// `l` and `r` agree because of what agrees already.
pub open spec fn agree_by(
    around: Surroundings,
    subst: Subst,
    agree: spec_fn(Ty, Ty) -> bool,
    l: Ty,
    r: Ty,
) -> bool {
    ||| l == r
    ||| same_type(l, r)
    ||| same_variable(l, r)
    ||| named_by(l, r)
    ||| instantiated_by(around, l, r)
    ||| bindings_agree(subst, agree, l, r)
    ||| expansions_agree(around.infos, agree, l, r)
    ||| parts_agree(agree, l, r)
    ||| is_row(l) && is_row(r) && (same_rows_agree(agree, l, r) || closed_rows_agree(agree, l, r)
        || open_rows_agree(agree, l, r))
}

/// `agree` holds of all that agrees because of what agrees already.
pub open spec fn is_agreement(
    around: Surroundings,
    subst: Subst,
    agree: spec_fn(Ty, Ty) -> bool,
) -> bool {
    forall|l: Ty, r: Ty| #[trigger] agree_by(around, subst, agree, l, r) ==> agree(l, r)
}

/// `l` and `r` agree once variables stand for what they are bound to in `subst`: this follows from
/// the agreement of their parts, of what variables are bound to and of what aliases expand to, and
/// rests on nothing else.
pub open spec fn types_agree(around: Surroundings, subst: Subst, l: Ty, r: Ty) -> bool {
    forall|agree: spec_fn(Ty, Ty) -> bool|
        #[trigger] is_agreement(around, subst, agree) ==> agree(l, r)
}

/// What is bound in `before` is bound to the same type in `after`.
spec fn binds_more(before: Subst, after: Subst) -> bool {
    &&& before.len() <= after.len()
    &&& forall|i: int|
        0 <= i < before.len() && (#[trigger] before[i]) is Some ==> after[i] == before[i]
}

proof fn binds_through(a: Subst, b: Subst, c: Subst)
    requires
        binds_more(a, b),
        binds_more(b, c),
    ensures
        binds_more(a, c),
{
    assert forall|i: int| 0 <= i < a.len() && (#[trigger] a[i]) is Some implies c[i] == a[i] by {
        assert(b[i] == a[i]);
        assert(b[i] is Some);
    }
}

/// What a type on the left stands for agrees, so the type does.
proof fn actual_left_agrees(
    around: Surroundings,
    before: Subst,
    subst: Subst,
    agree: spec_fn(Ty, Ty) -> bool,
    l: Ty,
    n: nat,
    r: Ty,
)
    requires
        is_agreement(around, subst, agree),
        binds_more(before, subst),
        actual_within(before, l, n) matches Some(t) && agree(t, r),
    ensures
        agree(l, r),
    decreases n,
{
    if let Ty::Variable(var) = l {
        if let Some(next) = bound(before, var.id) {
            actual_left_agrees(around, before, subst, agree, next, (n - 1) as nat, r);
            assert(before[var.id as int] is Some);
            assert(bound(subst, var.id) == Some(next));
            assert(agree_by(around, subst, agree, l, r));
        }
    }
}

proof fn actual_right_agrees(
    around: Surroundings,
    before: Subst,
    subst: Subst,
    agree: spec_fn(Ty, Ty) -> bool,
    l: Ty,
    r: Ty,
    n: nat,
)
    requires
        is_agreement(around, subst, agree),
        binds_more(before, subst),
        actual_within(before, r, n) matches Some(t) && agree(l, t),
    ensures
        agree(l, r),
    decreases n,
{
    if let Ty::Variable(var) = r {
        if let Some(next) = bound(before, var.id) {
            actual_right_agrees(around, before, subst, agree, l, next, (n - 1) as nat);
            assert(before[var.id as int] is Some);
            assert(bound(subst, var.id) == Some(next));
            assert(agree_by(around, subst, agree, l, r));
        }
    }
}

/// A variable that was bound to `t` agrees with what `t` agrees with.
proof fn united_agrees(
    around: Surroundings,
    subst: Subst,
    agree: spec_fn(Ty, Ty) -> bool,
    f: nat,
    s: Unified,
    var: TypeVariable,
    t: Ty,
    new: Option<Ty>,
)
    requires
        is_agreement(around, subst, agree),
        settled(united(f, s, var, t, new)) matches Some((after, _)) && after.faults.len()
            == s.faults.len() && binds_more(after.subst, subst),
    ensures
        bound(subst, var.id) == Some(t),
        agree(Ty::Variable(var), t),
        agree(t, Ty::Variable(var)),
{
    assert(united(f, s, var, t, new) is Some);
    let (after, attempt) = united(f, s, var, t, new)->0;
    if let Attempt::Failed(fault) = attempt {
        assert(s.fail(fault).faults.len() == s.faults.len() + 1);
        assert(false);
    }
    assert(after.subst[var.id as int] == Some(t));
    assert(subst[var.id as int] == Some(t));
    assert(agree_by(around, subst, agree, t, t));
    assert(agree_by(around, subst, agree, Ty::Variable(var), t));
    assert(agree_by(around, subst, agree, t, Ty::Variable(var)));
}

proof fn matched_agrees(
    f: nat,
    around: Surroundings,
    s: Unified,
    l: Ty,
    r: Ty,
    subst: Subst,
    agree: spec_fn(Ty, Ty) -> bool,
)
    requires
        is_agreement(around, subst, agree),
        matched(f, around, s, l, r) matches Some((after, _)) && after.faults.len() == s.faults.len()
            && binds_more(after.subst, subst),
    ensures
        agree(l, r),
    decreases f, 9nat,
{
    matched_adds(f, around, s, l, r);
    let after = (matched(f, around, s, l, r)->0).0;
    binds_through(s.subst, after.subst, subst);
    let (la, ra) = (actual(s.subst, l)->0, actual(s.subst, r)->0);
    match (la, ra) {
        (Ty::Variable(a), Ty::Variable(b)) if a.id == b.id => {
            assert(agree_by(around, subst, agree, la, ra));
        },
        (Ty::Generic(param), Ty::Variable(var)) => {
            match parameter(around, param, var) {
                Parameter::Is(left) => {
                    united_agrees(around, subst, agree, f, s, var, left, None);
                    assert(agree_by(around, subst, agree, la, left));
                    assert(agree_by(around, subst, agree, la, ra));
                },
                Parameter::Escapes => {
                    assert(false);
                },
            }
        },
        (_, Ty::Variable(var)) => {
            united_agrees(around, subst, agree, f, s, var, la, None);
        },
        (Ty::Variable(var), _) => {
            united_agrees(around, subst, agree, f, s, var, ra, Some(ra));
        },
        _ => {
            zipped_adds((f - 1) as nat, around, s, la, ra);
            let tried = zipped((f - 1) as nat, around, s, la, ra);
            if let Some((t, Attempt::Failed(fault))) = tried {
                assert(t.fail(fault).faults.len() == t.faults.len() + 1);
                assert(false);
            }
            zipped_agrees((f - 1) as nat, around, s, la, ra, subst, agree);
        },
    }
    assert(agree(la, ra));
    actual_right_agrees(around, s.subst, subst, agree, la, r, s.subst.len());
    actual_left_agrees(around, s.subst, subst, agree, l, s.subst.len(), r);
}

/// What the search for an alias finds is what the type expands to.
proof fn alias_found_agrees(
    f: nat,
    around: Surroundings,
    reduced: Seq<Seq<char>>,
    t: Ty,
    goal: Seq<char>,
    did: bool,
    other: Ty,
    subst: Subst,
    agree: spec_fn(Ty, Ty) -> bool,
)
    requires
        is_agreement(around, subst, agree),
        alias_search(f, around.infos, reduced, t, goal, did) matches Some((_, Ok(Some(_)))),
    ensures
        alias_search(f, around.infos, reduced, t, goal, did) matches Some((_, Ok(Some(found)))) && (
        agree(found, other) ==> agree(t, other)) && (agree(other, found) ==> agree(other, t)),
    decreases f,
{
    if let (Some(next), Some(alias)) = (expanded(around.infos, t), alias_name(t)) {
        if name_of(t) != Some(goal) && f > 0 {
            let more = reduced.push(alias);
            alias_found_agrees((f - 1) as nat, around, more, next, goal, true, other, subst, agree);
            if agree(next, other) {
                assert(agree_by(around, subst, agree, t, other));
            }
            if agree(other, next) {
                assert(agree_by(around, subst, agree, other, t));
            }
        }
    }
}

proof fn zipped_agrees(
    f: nat,
    around: Surroundings,
    s: Unified,
    l: Ty,
    r: Ty,
    subst: Subst,
    agree: spec_fn(Ty, Ty) -> bool,
)
    requires
        is_agreement(around, subst, agree),
        zipped(f, around, s, l, r) matches Some((after, Attempt::Matched(_))) && after.faults.len()
            == s.faults.len() && binds_more(after.subst, subst),
    ensures
        agree(l, r),
    decreases f, 8nat,
{
    let common = common_alias(f, around.infos, s.reduced, l, r)->0;
    let start = Unified { reduced: common.reduced, ..s };
    zipped_parts_agrees(f, around, start, common.l, common.r, subst, agree);
    if common.l != l {
        alias_found_agrees(f, around, s.reduced, l, name_of(r)->0, false, r, subst, agree);
    } else if common.r != r {
        alias_found_agrees(f, around, s.reduced, r, name_of(l)->0, false, l, subst, agree);
    }
}

proof fn zipped_parts_agrees(
    f: nat,
    around: Surroundings,
    s: Unified,
    l: Ty,
    r: Ty,
    subst: Subst,
    agree: spec_fn(Ty, Ty) -> bool,
)
    requires
        is_agreement(around, subst, agree),
        zipped_parts(f, around, s, l, r) matches Some((after, Attempt::Matched(_)))
            && after.faults.len() == s.faults.len() && binds_more(after.subst, subst),
    ensures
        agree(l, r),
    decreases f, 7nat,
{
    let g = (f - 1) as nat;
    match (l, r) {
        (Ty::App(lf, ls), Ty::App(rf, rs)) => {
            let (lf2, ls2, rf2, rs2) = aligned(*lf, ls, *rf, rs);
            matched_adds(g, around, s, lf2, rf2);
            let t = (matched(g, around, s, lf2, rf2)->0).0;
            matched_all_adds(g, around, t, ls2, rs2, ls2.len());
            let u = (matched_all(g, around, t, ls2, rs2, ls2.len())->0).0;
            binds_through(t.subst, u.subst, subst);
            matched_agrees(g, around, s, lf2, rf2, subst, agree);
            matched_all_agrees(g, around, t, ls2, rs2, ls2.len(), subst, agree);
            assert(parts_agree(agree, l, r));
        },
        (Ty::Function(lk, la, lr), Ty::Function(rk, ra, rr)) if lk == rk => {
            matched_adds(g, around, s, *la, *ra);
            let t = (matched(g, around, s, *la, *ra)->0).0;
            matched_adds(g, around, t, *lr, *rr);
            let u = (matched(g, around, t, *lr, *rr)->0).0;
            binds_through(t.subst, u.subst, subst);
            matched_agrees(g, around, s, *la, *ra, subst, agree);
            matched_agrees(g, around, t, *lr, *rr, subst, agree);
            assert(parts_agree(agree, l, r));
        },
        (Ty::Record(lrow), Ty::Record(rrow)) => {
            let inside = Unified { context: Some((l, r)), ..s };
            matched_agrees(g, around, inside, *lrow, *rrow, subst, agree);
            assert(parts_agree(agree, l, r));
        },
        (Ty::Ident(id), Ty::Alias(alias)) if id == alias.data().name => {},
        (Ty::Alias(alias), Ty::Ident(id)) if id == alias.data().name => {},
        _ => {
            if is_row(l) && is_row(r) {
                zipped_rows_agrees(g, around, s, l, r, subst, agree);
            } else if !same_type(l, r) {
                with_alias_agrees(g, around, s, l, r, subst, agree);
            }
        },
    }
    if !agree(l, r) {
        assert(agree_by(around, subst, agree, l, r));
    }
}

proof fn matched_all_agrees(
    f: nat,
    around: Surroundings,
    s: Unified,
    ls: Seq<Ty>,
    rs: Seq<Ty>,
    n: nat,
    subst: Subst,
    agree: spec_fn(Ty, Ty) -> bool,
)
    requires
        is_agreement(around, subst, agree),
        n <= ls.len(),
        n <= rs.len(),
        matched_all(f, around, s, ls, rs, n) matches Some((after, _)) && after.faults.len()
            == s.faults.len() && binds_more(after.subst, subst),
    ensures
        forall|i: int| 0 <= i < n ==> agree(#[trigger] ls[i], rs[i]),
    decreases f, 10nat, n,
{
    if n > 0 {
        let m = (n - 1) as nat;
        matched_all_adds(f, around, s, ls, rs, m);
        let t = (matched_all(f, around, s, ls, rs, m)->0).0;
        matched_adds(f, around, t, ls[n - 1], rs[n - 1]);
        let u = (matched(f, around, t, ls[n - 1], rs[n - 1])->0).0;
        binds_through(t.subst, u.subst, subst);
        matched_all_agrees(f, around, s, ls, rs, m, subst, agree);
        matched_agrees(f, around, t, ls[n - 1], rs[n - 1], subst, agree);
    }
}

proof fn matched_in_order_agrees(
    f: nat,
    around: Surroundings,
    s: Unified,
    ls: Seq<FieldTy>,
    rs: Seq<FieldTy>,
    n: nat,
    subst: Subst,
    agree: spec_fn(Ty, Ty) -> bool,
)
    requires
        is_agreement(around, subst, agree),
        n <= ls.len(),
        n <= rs.len(),
        matched_in_order(f, around, s, ls, rs, n) matches Some((after, _)) && after.faults.len()
            == s.faults.len() && binds_more(after.subst, subst),
    ensures
        in_order_agree(agree, ls, rs, n),
    decreases f, 10nat, n,
{
    if n > 0 {
        let m = (n - 1) as nat;
        let (a, b) = (ls[n - 1], rs[n - 1]);
        matched_in_order_adds(f, around, s, ls, rs, m);
        let t = (matched_in_order(f, around, s, ls, rs, m)->0).0;
        if a.name != b.name {
            assert(t.fail(Fault::FieldMismatch(a.name, b.name)).faults.len() == t.faults.len() + 1);
            assert(false);
        }
        matched_adds(f, around, t, a.typ, b.typ);
        let u = (matched(f, around, t, a.typ, b.typ)->0).0;
        binds_through(t.subst, u.subst, subst);
        matched_in_order_agrees(f, around, s, ls, rs, m, subst, agree);
        matched_agrees(f, around, t, a.typ, b.typ, subst, agree);
    }
}

proof fn zipped_rows_agrees(
    f: nat,
    around: Surroundings,
    s: Unified,
    l: Ty,
    r: Ty,
    subst: Subst,
    agree: spec_fn(Ty, Ty) -> bool,
)
    requires
        is_agreement(around, subst, agree),
        is_row(l),
        is_row(r),
        zipped_rows(f, around, s, l, r) matches Some((after, Attempt::Matched(_)))
            && after.faults.len() == s.faults.len() && binds_more(after.subst, subst),
    ensures
        agree(l, r),
    decreases f, 12nat,
{
    let (lp, rp) = (row_part(l), row_part(r));
    let (lt, rt) = (field_types(lp.fields), field_types(rp.fields));
    if same_names(lp.fields, rp.fields) && same_fields(lp.types, rp.types) {
        matched_all_adds(f, around, s, lt, rt, lp.fields.len());
        let t = (matched_all(f, around, s, lt, rt, lp.fields.len())->0).0;
        matched_adds(f, around, t, lp.rest, rp.rest);
        let u = (matched(f, around, t, lp.rest, rp.rest)->0).0;
        binds_through(t.subst, u.subst, subst);
        matched_all_agrees(f, around, s, lt, rt, lp.fields.len(), subst, agree);
        matched_agrees(f, around, t, lp.rest, rp.rest, subst, agree);
        assert(same_rows_agree(agree, l, r));
    } else if lp.rest is EmptyRow && rp.rest is EmptyRow && lp.fields.len() == rp.fields.len() {
        let n = lp.fields.len();
        matched_in_order_adds(f, around, s, lp.fields, rp.fields, n);
        let t = (matched_in_order(f, around, s, lp.fields, rp.fields, n)->0).0;
        matched_adds(f, around, t, lp.rest, rp.rest);
        let u = (matched(f, around, t, lp.rest, rp.rest)->0).0;
        binds_through(t.subst, u.subst, subst);
        matched_in_order_agrees(f, around, s, lp.fields, rp.fields, n, subst, agree);
        assert(closed_rows_agree(agree, l, r));
    } else {
        united_rows_agrees(f, around, s, l, r, subst, agree);
        assert(open_rows_agree(agree, l, r));
    }
    assert(agree_by(around, subst, agree, l, r));
}

proof fn shared_in_pairs(l: Seq<FieldTy>, r: Seq<FieldTy>, n: nat)
    ensures
        shared(l, r, n).len() == counterparts(l, r, n).len(),
    decreases n,
{
    if 0 < n <= l.len() {
        shared_in_pairs(l, r, (n - 1) as nat);
    }
}

proof fn united_rows_agrees(
    f: nat,
    around: Surroundings,
    s: Unified,
    l: Ty,
    r: Ty,
    subst: Subst,
    agree: spec_fn(Ty, Ty) -> bool,
)
    requires
        is_agreement(around, subst, agree),
        united_rows(f, around, s, l, r) matches Some((after, Attempt::Matched(_)))
            && after.faults.len() == s.faults.len() && binds_more(after.subst, subst),
    ensures
        open_rows_agree(agree, l, r),
    decreases f, 11nat,
{
    let (lt, rt) = (type_fields(l), type_fields(r));
    let (lf, rf) = (row_fields(l), row_fields(r));
    let types = shared(lt, rt, lt.len());
    let both = shared(lf, rf, lf.len());
    let (a, b) = (field_types(both), field_types(counterparts(lf, rf, lf.len())));
    shared_in_pairs(lf, rf, lf.len());
    matched_all_adds(f, around, s, a, b, both.len());
    let (t, news) = matched_all(f, around, s, a, b, both.len())->0;
    let row = RowSoFar { s: t, types, fields: updated_fields(both, news), rest: row_rest(r) };
    let (mt, mf) = (lacking(lt, rt, lt.len()), lacking(lf, rf, lf.len()));
    let (nt, nf) = (lacking(rt, lt, rt.len()), lacking(rf, lf, rf.len()));
    extended_right_adds(f, around, row, r, mt, mf);
    let row2 = extended_right(f, around, row, r, mt, mf)->0;
    extended_left_adds(f, around, row2, l, nt, nf);
    let row3 = extended_left(f, around, row2, l, nt, nf)->0;
    binds_through(row2.s.subst, row3.s.subst, subst);
    binds_through(t.subst, row2.s.subst, subst);
    matched_all_agrees(f, around, s, a, b, both.len(), subst, agree);
    if mf.len() > 0 {
        let (start, var) = fresh(t)->0;
        matched_agrees(f, around, start, full_row(mt, mf, var), row_rest(r), subst, agree);
    }
    if nf.len() > 0 {
        let (start, var) = fresh(row2.s)->0;
        matched_agrees(f, around, start, row_rest(l), full_row(nt, nf, var), subst, agree);
    }
}

/// What is left of a type without its aliases is what it expands to.
proof fn without_aliases_agrees(
    f: nat,
    around: Surroundings,
    reduced: Seq<Seq<char>>,
    t: Ty,
    changed: bool,
    other: Ty,
    subst: Subst,
    agree: spec_fn(Ty, Ty) -> bool,
)
    requires
        is_agreement(around, subst, agree),
        without_aliases(f, around.infos, reduced, t, changed) matches Some((_, Ok(_))),
    ensures
        without_aliases(f, around.infos, reduced, t, changed) matches Some((_, Ok(new))) && (agree(
            new_or(new, t),
            other,
        ) ==> agree(t, other)) && (agree(other, new_or(new, t)) ==> agree(other, t)),
        changed ==> (without_aliases(f, around.infos, reduced, t, changed) matches Some(
            (_, Ok(Some(_))),
        )),
    decreases f,
{
    if let Removed::Expanded(name, next) = removed(around.infos, reduced, t) {
        let more = reduced.push(name);
        without_aliases_agrees((f - 1) as nat, around, more, next, true, other, subst, agree);
        if agree(next, other) {
            assert(agree_by(around, subst, agree, t, other));
        }
        if agree(other, next) {
            assert(agree_by(around, subst, agree, other, t));
        }
    }
}

proof fn with_alias_agrees(
    f: nat,
    around: Surroundings,
    s: Unified,
    l: Ty,
    r: Ty,
    subst: Subst,
    agree: spec_fn(Ty, Ty) -> bool,
)
    requires
        is_agreement(around, subst, agree),
        with_alias(f, around, s, l, r) matches Some((after, Attempt::Matched(_)))
            && after.faults.len() == s.faults.len() && binds_more(after.subst, subst),
    ensures
        agree(l, r),
    decreases f, 10nat,
{
    let (reduced, left) = without_aliases(f, around.infos, s.reduced, l, false)->0;
    let (reduced2, right) = without_aliases(f, around.infos, reduced, r, false)->0;
    let (new_l, new_r) = (new_or(left->Ok_0, l), new_or(right->Ok_0, r));
    let start = Unified { reduced: reduced2, ..s };
    matched_agrees(f, around, start, new_l, new_r, subst, agree);
    without_aliases_agrees(f, around, s.reduced, l, false, new_r, subst, agree);
    without_aliases_agrees(f, around, reduced, r, false, l, subst, agree);
}

/// Types that unify with nothing to report agree: once variables stand for what they are bound to
/// then, the types have agreeing parts, up to the expansion of aliases.
pub proof fn unified_types_agree(around: Surroundings, s: Unified, l: Ty, r: Ty)
    ensures
        unified(around, s, l, r) matches Some((after, _)) ==> after.faults == s.faults
            ==> types_agree(around, after.subst, l, r),
{
    if let Some((after, _)) = unified(around, s, l, r) {
        if after.faults == s.faults {
            let f = choose|f: nat| (#[trigger] matched(f, around, s, l, r)) is Some;
            assert forall|agree: spec_fn(Ty, Ty) -> bool| #[trigger]
                is_agreement(around, after.subst, agree) implies agree(l, r) by {
                matched_agrees(f, around, s, l, r, after.subst, agree);
            }
        }
    }
}

/// `equal` is an equality of types that knows what variables are bound to and what aliases expand
/// to, that goes by the parts of types, and that does not look into rows.
pub open spec fn is_equality(
    around: Surroundings,
    subst: Subst,
    equal: spec_fn(Ty, Ty) -> bool,
) -> bool {
    &&& forall|a: Ty| #[trigger] equal(a, a)
    &&& forall|a: Ty, b: Ty| #[trigger] same_type(a, b) ==> equal(a, b)
    &&& forall|a: Ty, b: Ty| #[trigger] equal(a, b) ==> equal(b, a)
    &&& forall|a: Ty, b: Ty, c: Ty| #[trigger] equal(a, b) && #[trigger] equal(b, c) ==> equal(a, c)
    &&& forall|a: Ty, b: Ty| #[trigger] same_variable(a, b) ==> equal(a, b)
    &&& forall|a: Ty, b: Ty| #[trigger] named_by(a, b) ==> equal(a, b)
    &&& forall|a: Ty, b: Ty| #[trigger] instantiated_by(around, a, b) ==> equal(a, b)
    &&& forall|var: TypeVariable| #[trigger]
        bound(subst, var.id) matches Some(t) ==> equal(Ty::Variable(var), t)
    &&& forall|a: Ty| #[trigger] expanded(around.infos, a) matches Some(t) ==> equal(a, t)
    &&& forall|a: Ty, b: Ty| #[trigger] parts_agree(equal, a, b) ==> equal(a, b)
    &&& forall|a: Ty, b: Ty| #[trigger] is_row(a) && #[trigger] is_row(b) ==> equal(a, b)
}

/// Types that agree are equal, but for what their rows hold: rows agree already where one of them
/// has more fields than the other.
pub proof fn agreeing_types_are_equal(
    around: Surroundings,
    subst: Subst,
    l: Ty,
    r: Ty,
    equal: spec_fn(Ty, Ty) -> bool,
)
    requires
        types_agree(around, subst, l, r),
        is_equality(around, subst, equal),
    ensures
        equal(l, r),
{
    assert forall|a: Ty, b: Ty| #[trigger] agree_by(around, subst, equal, a, b) implies equal(
        a,
        b,
    ) by {
        if bindings_agree(subst, equal, a, b) {
            if let Ty::Variable(var) = a {
                if let Some(t) = bound(subst, var.id) {
                    assert(equal(a, t));
                }
            }
            if let Ty::Variable(var) = b {
                if let Some(t) = bound(subst, var.id) {
                    assert(equal(b, t));
                    assert(equal(t, b));
                }
            }
        } else if expansions_agree(around.infos, equal, a, b) {
            if let Some(t) = expanded(around.infos, b) {
                assert(equal(b, t));
                assert(equal(t, b));
            }
        }
    }
    assert(is_agreement(around, subst, equal));
}

} // verus!
