//! Laws that relate the operations to one another.

use vstd::prelude::*;
use crate::error::MaskErrorView;
use crate::mask::{build, effective_mask, include_all};
use crate::node::{
    core_index, empty_mask, fits, full_mask, has_slots, lemma_empty_is_not_full,
    lemma_optional_mask, slot_at, tidy, union_mask, union_slots, whole_mask, MaskView,
};
use crate::options::UpdateOptions;
use crate::path::{include_path, include_route, path_segments, resolve, route_ok};
use crate::schema::{core_rank, direct_rank, Schema, TypeRef};
use crate::typing::conforms_view;
use crate::merge::merge_view;
use crate::project::project_view;
use crate::typing::default_view;
use crate::update::{filled_view, update_all_view, update_view};
use crate::value::no_value;
use crate::value::ValueView;

verus! {

/// An update by a mask that selects something leaves a field of a record
/// whose slot is absent exactly as it was in the target, whatever the
/// source holds.
pub proof fn lemma_update_is_restricted_to_mask(
    schema: &Schema,
    i: usize,
    t: ValueView,
    s: ValueView,
    m: MaskView,
    options: UpdateOptions,
    j: int,
)
    requires
        schema.is_struct(i as int),
        conforms_view(schema, t, TypeRef::Message(i)),
        conforms_view(schema, s, TypeRef::Message(i)),
        fits(schema, TypeRef::Message(i), m),
        m != empty_mask(schema, TypeRef::Message(i)),
        0 <= j < schema.arity(i as int),
        slot_at(schema, TypeRef::Message(i), m, j) is None,
    ensures
        update_view(schema, TypeRef::Message(i), t, s, m, options) is Record,
        update_view(schema, TypeRef::Message(i), t, s, m, options)->Record_0.len()
            == t->Record_0.len(),
        update_view(schema, TypeRef::Message(i), t, s, m, options)->Record_0[j] == t->Record_0[j],
{
}

/// No path at all selects nothing, and the empty path selects everything;
/// at the top level an update takes the mask that selects nothing as the
/// mask that selects everything; and for a type without fields of its own
/// the two are one mask.
pub proof fn lemma_no_paths_select_nothing(schema: &Schema, ty: TypeRef)
    ensures
        build(schema, ty, Seq::empty()) == Ok::<MaskView, MaskErrorView>(empty_mask(schema, ty)),
        build(schema, ty, seq![Seq::empty()]) == Ok::<MaskView, MaskErrorView>(
            full_mask(schema, ty),
        ),
        effective_mask(schema, ty, empty_mask(schema, ty)) == full_mask(schema, ty),
        !has_slots(schema, ty) ==> empty_mask(schema, ty) == full_mask(schema, ty),
{
    let one = seq![Seq::<char>::empty()];
    assert(one.drop_first() =~= Seq::<Seq<char>>::empty());
    assert(include_all(schema, ty, full_mask(schema, ty), one.drop_first()) == Ok::<
        MaskView,
        MaskErrorView,
    >(full_mask(schema, ty)));
    assert(include_path(schema, ty, empty_mask(schema, ty), path_segments(one[0])) == Ok::<
        MaskView,
        MaskErrorView,
    >(full_mask(schema, ty)));
}

/// The mask that selects nothing of a type is a mask of the type.
pub proof fn lemma_empty_fits(schema: &Schema, ty: TypeRef)
    requires
        schema.wf(),
    ensures
        fits(schema, ty, empty_mask(schema, ty)),
    decreases core_rank(ty),
{
    if has_slots(schema, ty) {
        let i = core_index(ty);
        let e = empty_mask(schema, ty);
        assert(schema.info_ok(i));
        assert forall|j: int| 0 <= j < schema.arity(i) implies {
            &&& schema.field(i, j).is_flatten ==> (#[trigger] e.slots[j]) is Some
            &&& e.slots[j] is Some ==> fits(schema, schema.field(i, j).ty, e.slots[j]->0)
        } by {
            assert(schema.field_ok(i, j));
            if schema.field(i, j).is_flatten {
                lemma_empty_fits(schema, schema.field(i, j).ty);
            }
        }
        lemma_empty_is_not_full(schema, ty);
    }
}

/// What a mask of a type becomes when a route of the type is included is
/// a mask of the type.
pub proof fn lemma_include_route_fits(schema: &Schema, ty: TypeRef, m: MaskView, route: Seq<usize>)
    requires
        schema.wf(),
        fits(schema, ty, m),
        route_ok(schema, ty, route),
    ensures
        fits(schema, ty, include_route(schema, ty, m, route)),
    decreases route.len(),
{
    if route.len() > 0 && !m.whole {
        let i = core_index(ty);
        let k = route[0] as int;
        let child_ty = schema.field(i, k).ty;
        let child = match m.slots[k] {
            Some(c) => c,
            None => empty_mask(schema, child_ty),
        };
        lemma_empty_fits(schema, child_ty);
        lemma_include_route_fits(schema, child_ty, child, route.drop_first());
        let after = include_route(schema, ty, m, route);
        if !after.whole {
            assert forall|j: int| 0 <= j < schema.arity(i) implies {
                &&& schema.field(i, j).is_flatten ==> (#[trigger] after.slots[j]) is Some
                &&& after.slots[j] is Some ==> fits(
                    schema,
                    schema.field(i, j).ty,
                    after.slots[j]->0,
                )
            } by {
                if j != k {
                    assert(after.slots[j] == m.slots[j]);
                }
            }
        }
    }
}

/// Including two routes in a mask gives the same mask in either order.
pub proof fn lemma_include_route_commutes(
    schema: &Schema,
    ty: TypeRef,
    m: MaskView,
    r1: Seq<usize>,
    r2: Seq<usize>,
)
    requires
        schema.wf(),
        fits(schema, ty, m),
        route_ok(schema, ty, r1),
        route_ok(schema, ty, r2),
    ensures
        include_route(schema, ty, include_route(schema, ty, m, r1), r2) == include_route(
            schema,
            ty,
            include_route(schema, ty, m, r2),
            r1,
        ),
    decreases r1.len(),
{
    if r1.len() == 0 {
        lemma_full_mask_absorbs_route(schema, ty, r2);
    } else if r2.len() == 0 {
        lemma_full_mask_absorbs_route(schema, ty, r1);
    } else if !m.whole {
        let i = core_index(ty);
        let k1 = r1[0] as int;
        let k2 = r2[0] as int;
        let t1 = schema.field(i, k1).ty;
        let t2 = schema.field(i, k2).ty;
        let c1 = match m.slots[k1] {
            Some(c) => c,
            None => empty_mask(schema, t1),
        };
        let c2 = match m.slots[k2] {
            Some(c) => c,
            None => empty_mask(schema, t2),
        };
        let n1 = include_route(schema, t1, c1, r1.drop_first());
        let n2 = include_route(schema, t2, c2, r2.drop_first());
        let u1 = m.slots.update(k1, Some(n1));
        let u2 = m.slots.update(k2, Some(n2));
        let a = tidy(schema, ty, u1);
        let b = tidy(schema, ty, u2);
        assert(include_route(schema, ty, m, r1) == a);
        assert(include_route(schema, ty, m, r2) == b);
        assert(m == (MaskView { whole: false, slots: m.slots }));
        lemma_empty_fits(schema, t1);
        lemma_empty_fits(schema, t2);
        lemma_full_mask_absorbs_route(schema, t1, r1.drop_first());
        lemma_full_mask_absorbs_route(schema, t2, r2.drop_first());
        if k1 == k2 {
            lemma_include_route_commutes(schema, t1, c1, r1.drop_first(), r2.drop_first());
            let n12 = include_route(schema, t1, n1, r2.drop_first());
            let u12 = m.slots.update(k1, Some(n12));
            assert(u1.update(k1, Some(n12)) =~= u12);
            assert(u2.update(k1, Some(n12)) =~= u12);
            if a.whole {
                assert(u1[k1] == Some(full_mask(schema, t1)));
                assert(n12 == full_mask(schema, t1));
                if !b.whole {
                    assert forall|j: int| 0 <= j < schema.arity(i) implies (#[trigger] u12[j])
                        == Some(full_mask(schema, schema.field(i, j).ty)) by {
                        if j != k1 {
                            assert(u12[j] == u1[j]);
                        }
                    }
                }
            } else if b.whole {
                assert(u2[k1] == Some(full_mask(schema, t1)));
                assert(n12 == full_mask(schema, t1));
                assert forall|j: int| 0 <= j < schema.arity(i) implies (#[trigger] u12[j]) == Some(
                    full_mask(schema, schema.field(i, j).ty),
                ) by {
                    if j != k1 {
                        assert(u12[j] == u2[j]);
                    }
                }
            }
        } else {
            if a.whole {
                assert(u1[k2] == Some(full_mask(schema, t2)));
                assert(u2 =~= m.slots);
                assert(b == m);
            } else if b.whole {
                assert(u2[k1] == Some(full_mask(schema, t1)));
                assert(u1 =~= m.slots);
                assert(a == m);
            } else {
                assert(u1[k2] == m.slots[k2]);
                assert(u2[k1] == m.slots[k1]);
                assert(u1.update(k2, Some(n2)) =~= u2.update(k1, Some(n1)));
            }
        }
    }
}

/// The union of a mask with the mask that selects nothing is the mask.
pub proof fn lemma_union_with_nothing(schema: &Schema, ty: TypeRef, m: MaskView)
    requires
        fits(schema, ty, m),
    ensures
        union_mask(schema, ty, m, empty_mask(schema, ty)) == m,
    decreases m,
{
    let none = empty_mask(schema, ty);
    if !m.whole {
        let u = union_slots(schema, ty, m, none);
        if has_slots(schema, ty) {
            let i = core_index(ty);
            assert forall|j: int| 0 <= j < m.slots.len() implies u[j] == m.slots[j] by {
                if m.slots[j] is Some && none.slots[j] is Some {
                    lemma_union_with_nothing(schema, schema.field(i, j).ty, m.slots[j]->0);
                }
            }
        }
        assert(u =~= m.slots);
    } else {
        assert(m.slots =~= Seq::<Option<MaskView>>::empty());
    }
}

/// Including a route in a mask is taking the union of the mask with the
/// mask that selects the route alone: inclusions add up, none overwrites
/// another.
pub proof fn lemma_include_is_union(schema: &Schema, ty: TypeRef, m: MaskView, route: Seq<usize>)
    requires
        schema.wf(),
        fits(schema, ty, m),
        route_ok(schema, ty, route),
    ensures
        include_route(schema, ty, m, route) == union_mask(
            schema,
            ty,
            m,
            include_route(schema, ty, empty_mask(schema, ty), route),
        ),
    decreases route.len(),
{
    let none = empty_mask(schema, ty);
    let alone = include_route(schema, ty, none, route);
    let added = include_route(schema, ty, m, route);
    if route.len() == 0 {
        if !has_slots(schema, ty) {
            assert(union_slots(schema, ty, m, alone) =~= Seq::<Option<MaskView>>::empty());
        }
    } else if m.whole {
        assert(m.slots =~= Seq::<Option<MaskView>>::empty());
    } else {
        let i = core_index(ty);
        let k = route[0] as int;
        let child_ty = schema.field(i, k).ty;
        let rest = route.drop_first();
        assert(schema.info_ok(i));
        assert(schema.field_ok(i, k));
        lemma_empty_fits(schema, child_ty);
        lemma_empty_is_not_full(schema, ty);
        let ac = include_route(schema, child_ty, empty_mask(schema, child_ty), rest);
        let eu = none.slots.update(k, Some(ac));
        assert(alone == tidy(schema, ty, eu));
        let c = match m.slots[k] {
            Some(x) => x,
            None => empty_mask(schema, child_ty),
        };
        let cn = include_route(schema, child_ty, c, rest);
        let u = m.slots.update(k, Some(cn));
        assert(added == tidy(schema, ty, u));
        assert(fits(schema, child_ty, c));
        lemma_include_is_union(schema, child_ty, c, rest);
        if alone.whole {
            assert(eu[k] == Some(full_mask(schema, child_ty)));
            assert(ac == full_mask(schema, child_ty));
            if m.slots[k] is Some {
                if !has_slots(schema, child_ty) {
                    assert(c.slots.len() == 0);
                    assert(union_slots(schema, child_ty, c, ac) =~= c.slots);
                    assert(c.slots =~= full_mask(schema, child_ty).slots);
                }
            }
            assert(cn == full_mask(schema, child_ty));
            assert forall|j: int| 0 <= j < schema.arity(i) implies (#[trigger] u[j]) == Some(
                full_mask(schema, schema.field(i, j).ty),
            ) by {
                if j != k {
                    // No other slot of the mask that selects nothing is full.
                    assert(schema.field_ok(i, j));
                    assert(eu[j] == none.slots[j]);
                    if schema.field(i, j).is_flatten {
                        lemma_empty_is_not_full(schema, schema.field(i, j).ty);
                    }
                    assert(false);
                }
            }
        } else {
            let us = union_slots(schema, ty, m, alone);
            assert forall|j: int| 0 <= j < m.slots.len() implies us[j] == u[j] by {
                if j != k {
                    assert(eu[j] == none.slots[j]);
                    if m.slots[j] is Some && none.slots[j] is Some {
                        lemma_union_with_nothing(schema, schema.field(i, j).ty, m.slots[j]->0);
                    }
                }
            }
            assert(us =~= u);
        }
    }
}

/// The route that a path resolves to names slots of the type.
pub proof fn lemma_resolve_gives_route(
    schema: &Schema,
    ty: TypeRef,
    path: Seq<Seq<char>>,
    from: nat,
)
    ensures
        resolve(schema, ty, path, from) is Ok ==> route_ok(
            schema,
            ty,
            resolve(schema, ty, path, from)->Ok_0,
        ),
    decreases path.len(), core_rank(ty), schema.arity(core_index(ty)) - from,
{
    if path.len() > 0 && has_slots(schema, ty) {
        let i = core_index(ty);
        if from < schema.arity(i) {
            let f = schema.field(i, from as int);
            assert(schema.arity(i) == schema.types@[i].fields.len());
            assert((from as usize) as int == from);
            if f.is_flatten {
                if core_rank(f.ty) <= i {
                    lemma_resolve_gives_route(schema, f.ty, path, 0);
                    match resolve(schema, f.ty, path, 0) {
                        Ok(route) => {
                            assert((seq![from as usize] + route).drop_first() =~= route);
                        },
                        Err(MaskErrorView::FieldNotFound { .. }) => {
                            lemma_resolve_gives_route(schema, ty, path, from + 1);
                        },
                        Err(_) => {},
                    }
                } else {
                    lemma_resolve_gives_route(schema, ty, path, from + 1);
                }
            } else if f.name@ == path[0] {
                lemma_resolve_gives_route(schema, f.ty, path.drop_first(), 0);
                match resolve(schema, f.ty, path.drop_first(), 0) {
                    Ok(route) => {
                        assert((seq![from as usize] + route).drop_first() =~= route);
                    },
                    Err(_) => {},
                }
            } else {
                lemma_resolve_gives_route(schema, ty, path, from + 1);
            }
        }
    }
}

/// Including a route in the mask that selects everything changes nothing.
pub proof fn lemma_full_mask_absorbs_route(schema: &Schema, ty: TypeRef, route: Seq<usize>)
    ensures
        include_route(schema, ty, full_mask(schema, ty), route) == full_mask(schema, ty),
{
}

/// A field that is selected as a whole stays so: after a route is
/// included, including a route that goes on from it changes nothing.
pub proof fn lemma_whole_field_absorbs(
    schema: &Schema,
    ty: TypeRef,
    m: MaskView,
    route: Seq<usize>,
    further: Seq<usize>,
)
    ensures
        include_route(schema, ty, include_route(schema, ty, m, route), route + further)
            == include_route(schema, ty, m, route),
    decreases route.len(),
{
    let once = include_route(schema, ty, m, route);
    let twice = include_route(schema, ty, once, route + further);
    if route.len() == 0 {
        lemma_full_mask_absorbs_route(schema, ty, route + further);
    } else if !m.whole && route[0] < m.slots.len() {
        let k = route[0] as int;
        let child_ty = schema.field(core_index(ty), k).ty;
        let child = match m.slots[k] {
            Some(c) => c,
            None => empty_mask(schema, child_ty),
        };
        let next = include_route(schema, child_ty, child, route.drop_first());
        let u = m.slots.update(k, Some(next));
        assert(once == tidy(schema, ty, u));
        assert((route + further)[0] == route[0]);
        assert((route + further).drop_first() =~= route.drop_first() + further);
        lemma_whole_field_absorbs(schema, child_ty, child, route.drop_first(), further);
        if !once.whole {
            assert(u.update(k, Some(next)) =~= u);
        }
    } else {
        assert((route + further)[0] == route[0]);
    }
}

/// Whether a path is refused because no field takes its first segment.
pub open spec fn not_found(r: Result<Seq<usize>, MaskErrorView>) -> bool {
    r is Err && r->Err_0 is FieldNotFound
}

/// Whether a field takes a path depends on the first segment alone.
pub proof fn lemma_first_segment_decides(
    schema: &Schema,
    ty: TypeRef,
    p: Seq<Seq<char>>,
    q: Seq<Seq<char>>,
    from: nat,
)
    requires
        p.len() > 0,
        q.len() > 0,
        p[0] == q[0],
    ensures
        not_found(resolve(schema, ty, p, from)) == not_found(resolve(schema, ty, q, from)),
    decreases core_rank(ty), schema.arity(core_index(ty)) - from,
{
    if has_slots(schema, ty) {
        let i = core_index(ty);
        if from < schema.arity(i) {
            let f = schema.field(i, from as int);
            if f.is_flatten {
                if core_rank(f.ty) <= i {
                    lemma_first_segment_decides(schema, f.ty, p, q, 0);
                    if not_found(resolve(schema, f.ty, p, 0)) {
                        lemma_first_segment_decides(schema, ty, p, q, from + 1);
                    }
                } else {
                    lemma_first_segment_decides(schema, ty, p, q, from + 1);
                }
            } else if f.name@ != p[0] {
                lemma_first_segment_decides(schema, ty, p, q, from + 1);
            }
        }
    }
}

/// A path that goes on from another resolves to a route that goes on from
/// the route of the other.
pub proof fn lemma_resolve_goes_on(
    schema: &Schema,
    ty: TypeRef,
    p: Seq<Seq<char>>,
    q: Seq<Seq<char>>,
    from: nat,
)
    requires
        resolve(schema, ty, p, from) is Ok,
        resolve(schema, ty, p + q, from) is Ok,
    ensures
        resolve(schema, ty, p, from)->Ok_0.len() <= resolve(schema, ty, p + q, from)->Ok_0.len(),
        resolve(schema, ty, p + q, from)->Ok_0 == resolve(schema, ty, p, from)->Ok_0 + resolve(
            schema,
            ty,
            p + q,
            from,
        )->Ok_0.skip(resolve(schema, ty, p, from)->Ok_0.len() as int),
    decreases p.len(), core_rank(ty), schema.arity(core_index(ty)) - from,
{
    let pq = p + q;
    let rp = resolve(schema, ty, p, from)->Ok_0;
    let rpq = resolve(schema, ty, pq, from)->Ok_0;
    if p.len() == 0 {
        assert(rpq =~= rp + rpq.skip(0));
    } else {
        assert(pq[0] == p[0]);
        let i = core_index(ty);
        let f = schema.field(i, from as int);
        if f.is_flatten {
            if core_rank(f.ty) <= i {
                lemma_first_segment_decides(schema, f.ty, p, pq, 0);
                if not_found(resolve(schema, f.ty, p, 0)) {
                    lemma_resolve_goes_on(schema, ty, p, q, from + 1);
                } else {
                    lemma_resolve_goes_on(schema, f.ty, p, q, 0);
                    let a = resolve(schema, f.ty, p, 0)->Ok_0;
                    let b = resolve(schema, f.ty, pq, 0)->Ok_0;
                    assert(rp == seq![from as usize] + a);
                    assert(rpq == seq![from as usize] + b);
                    assert(rpq.skip(rp.len() as int) =~= b.skip(a.len() as int));
                    assert(rpq =~= rp + rpq.skip(rp.len() as int));
                }
            } else {
                lemma_resolve_goes_on(schema, ty, p, q, from + 1);
            }
        } else if f.name@ == p[0] {
            assert(pq.drop_first() =~= p.drop_first() + q);
            lemma_resolve_goes_on(schema, f.ty, p.drop_first(), q, 0);
            let a = resolve(schema, f.ty, p.drop_first(), 0)->Ok_0;
            let b = resolve(schema, f.ty, pq.drop_first(), 0)->Ok_0;
            assert(rp == seq![from as usize] + a);
            assert(rpq == seq![from as usize] + b);
            assert(rpq.skip(rp.len() as int) =~= b.skip(a.len() as int));
            assert(rpq =~= rp + rpq.skip(rp.len() as int));
        } else {
            lemma_resolve_goes_on(schema, ty, p, q, from + 1);
        }
    }
}

/// What a path selects it selects as a whole: after a path is included,
/// including a path that goes on from it changes nothing.
pub proof fn lemma_whole_field_stays_whole(
    schema: &Schema,
    ty: TypeRef,
    m: MaskView,
    p: Seq<Seq<char>>,
    q: Seq<Seq<char>>,
)
    requires
        resolve(schema, ty, p, 0) is Ok,
        resolve(schema, ty, p + q, 0) is Ok,
    ensures
        include_path(schema, ty, m, p) is Ok,
        include_path(schema, ty, include_path(schema, ty, m, p)->Ok_0, p + q) == include_path(
            schema,
            ty,
            m,
            p,
        ),
{
    lemma_resolve_goes_on(schema, ty, p, q, 0);
    let rp = resolve(schema, ty, p, 0)->Ok_0;
    let rpq = resolve(schema, ty, p + q, 0)->Ok_0;
    lemma_whole_field_absorbs(schema, ty, m, rp, rpq.skip(rp.len() as int));
}

/// Including two paths in a mask gives the same result in either order,
/// where both select something.
pub proof fn lemma_include_path_commutes(
    schema: &Schema,
    ty: TypeRef,
    m: MaskView,
    p: Seq<Seq<char>>,
    q: Seq<Seq<char>>,
)
    requires
        schema.wf(),
        fits(schema, ty, m),
        resolve(schema, ty, p, 0) is Ok,
        resolve(schema, ty, q, 0) is Ok,
    ensures
        include_path(schema, ty, m, p) is Ok,
        include_path(schema, ty, m, q) is Ok,
        fits(schema, ty, include_path(schema, ty, m, p)->Ok_0),
        include_path(schema, ty, include_path(schema, ty, m, p)->Ok_0, q) == include_path(
            schema,
            ty,
            include_path(schema, ty, m, q)->Ok_0,
            p,
        ),
{
    lemma_resolve_gives_route(schema, ty, p, 0);
    lemma_resolve_gives_route(schema, ty, q, 0);
    lemma_include_route_fits(schema, ty, m, resolve(schema, ty, p, 0)->Ok_0);
    lemma_include_route_commutes(
        schema,
        ty,
        m,
        resolve(schema, ty, p, 0)->Ok_0,
        resolve(schema, ty, q, 0)->Ok_0,
    );
}

/// Whether every one of `entries` selects something of `ty`.
pub open spec fn all_resolve(schema: &Schema, ty: TypeRef, entries: Seq<Seq<char>>) -> bool {
    forall|k: int|
        0 <= k < entries.len() ==> resolve(
            schema,
            ty,
            path_segments(#[trigger] entries[k]),
            0,
        ) is Ok
}

/// Paths are included with success exactly when each of them selects
/// something.
pub proof fn lemma_include_all_succeeds(
    schema: &Schema,
    ty: TypeRef,
    m: MaskView,
    entries: Seq<Seq<char>>,
)
    ensures
        include_all(schema, ty, m, entries) is Ok <==> all_resolve(schema, ty, entries),
    decreases entries.len(),
{
    if entries.len() > 0 {
        let rest = entries.drop_first();
        match include_path(schema, ty, m, path_segments(entries[0])) {
            Ok(next) => {
                lemma_include_all_succeeds(schema, ty, next, rest);
                if all_resolve(schema, ty, rest) {
                    assert forall|k: int| 0 <= k < entries.len() implies resolve(
                        schema,
                        ty,
                        path_segments(#[trigger] entries[k]),
                        0,
                    ) is Ok by {
                        if k > 0 {
                            assert(entries[k] == rest[k - 1]);
                        }
                    }
                } else {
                    let k = choose|k: int|
                        0 <= k < rest.len() && !(resolve(
                            schema,
                            ty,
                            path_segments(#[trigger] rest[k]),
                            0,
                        ) is Ok);
                    assert(entries[k + 1] == rest[k]);
                }
            },
            Err(_) => {
                assert(!(resolve(schema, ty, path_segments(entries[0]), 0) is Ok));
            },
        }
    }
}

/// Including paths that all select something gives the same mask when
/// one of them is included first.
pub proof fn lemma_include_all_front(
    schema: &Schema,
    ty: TypeRef,
    m: MaskView,
    entries: Seq<Seq<char>>,
    k: int,
)
    requires
        schema.wf(),
        fits(schema, ty, m),
        all_resolve(schema, ty, entries),
        0 <= k < entries.len(),
    ensures
        include_all(schema, ty, m, entries) == include_all(
            schema,
            ty,
            m,
            seq![entries[k]] + entries.remove(k),
        ),
    decreases k,
{
    let moved = seq![entries[k]] + entries.remove(k);
    if k == 0 {
        assert(moved =~= entries);
    } else {
        let first = entries[0];
        let rest = entries.drop_first();
        let x = entries[k];
        assert(rest[k - 1] == x);
        assert forall|q: int| 0 <= q < rest.len() implies resolve(
            schema,
            ty,
            path_segments(#[trigger] rest[q]),
            0,
        ) is Ok by {
            assert(rest[q] == entries[q + 1]);
        }
        let p = path_segments(first);
        let q = path_segments(x);
        lemma_include_path_commutes(schema, ty, m, p, q);
        let m0 = include_path(schema, ty, m, p)->Ok_0;
        let mx = include_path(schema, ty, m, q)->Ok_0;
        lemma_include_all_front(schema, ty, m0, rest, k - 1);
        let rest_moved = seq![x] + rest.remove(k - 1);
        assert(rest_moved[0] == x);
        assert(rest_moved.drop_first() =~= rest.remove(k - 1));
        assert(moved[0] == x);
        assert(moved.drop_first() =~= entries.remove(k));
        let tail = entries.remove(k);
        assert(tail[0] == first);
        assert(tail.drop_first() =~= rest.remove(k - 1));
        let last = rest.remove(k - 1);
        assert(include_all(schema, ty, m, entries) == include_all(schema, ty, m0, rest));
        assert(include_all(schema, ty, m0, rest_moved) == match include_path(schema, ty, m0, q) {
            Ok(next) => include_all(schema, ty, next, last),
            Err(e) => Err(e),
        });
        assert(include_all(schema, ty, m, moved) == include_all(schema, ty, mx, tail));
        assert(include_all(schema, ty, mx, tail) == match include_path(schema, ty, mx, p) {
            Ok(next) => include_all(schema, ty, next, last),
            Err(e) => Err(e),
        });
    }
}

/// Including paths that all select something gives the same mask in
/// whatever order they are included.
pub proof fn lemma_include_all_ignores_order(
    schema: &Schema,
    ty: TypeRef,
    m: MaskView,
    e1: Seq<Seq<char>>,
    e2: Seq<Seq<char>>,
)
    requires
        schema.wf(),
        fits(schema, ty, m),
        e1.to_multiset() == e2.to_multiset(),
        all_resolve(schema, ty, e1),
        all_resolve(schema, ty, e2),
    ensures
        include_all(schema, ty, m, e1) == include_all(schema, ty, m, e2),
    decreases e1.len(),
{
    e1.to_multiset_ensures();
    e2.to_multiset_ensures();
    if e1.len() > 0 {
        let x = e1[0];
        assert(e1.contains(x));
        assert(e2.to_multiset().count(x) > 0);
        assert(e2.contains(x));
        let k = choose|k: int| 0 <= k < e2.len() && e2[k] == x;
        lemma_include_all_front(schema, ty, m, e2, k);
        let moved = seq![x] + e2.remove(k);
        assert(moved[0] == x);
        assert(moved.drop_first() =~= e2.remove(k));
        let r1 = e1.drop_first();
        let r2 = e2.remove(k);
        assert(r1 =~= e1.remove(0));
        assert(r1.to_multiset() =~= r2.to_multiset());
        assert forall|q: int| 0 <= q < r1.len() implies resolve(
            schema,
            ty,
            path_segments(#[trigger] r1[q]),
            0,
        ) is Ok by {
            assert(r1[q] == e1[q + 1]);
        }
        assert forall|q: int| 0 <= q < r2.len() implies resolve(
            schema,
            ty,
            path_segments(#[trigger] r2[q]),
            0,
        ) is Ok by {
            if q < k {
                assert(r2[q] == e2[q]);
            } else {
                assert(r2[q] == e2[q + 1]);
            }
        }
        let next = include_path(schema, ty, m, path_segments(x))->Ok_0;
        lemma_resolve_gives_route(schema, ty, path_segments(x), 0);
        lemma_include_route_fits(schema, ty, m, resolve(schema, ty, path_segments(x), 0)->Ok_0);
        lemma_include_all_ignores_order(schema, ty, next, r1, r2);
    } else {
        assert(e2.len() == 0);
    }
}

/// The mask that a list of paths selects does not depend on the order of
/// the paths: a permutation of the list fails when the list fails, and
/// otherwise gives the same mask.
pub proof fn lemma_build_ignores_order(
    schema: &Schema,
    ty: TypeRef,
    e1: Seq<Seq<char>>,
    e2: Seq<Seq<char>>,
)
    requires
        schema.wf(),
        e1.to_multiset() == e2.to_multiset(),
    ensures
        build(schema, ty, e1) is Ok <==> build(schema, ty, e2) is Ok,
        build(schema, ty, e1) is Ok ==> build(schema, ty, e1) == build(schema, ty, e2),
{
    let m = empty_mask(schema, ty);
    lemma_empty_fits(schema, ty);
    lemma_include_all_succeeds(schema, ty, m, e1);
    lemma_include_all_succeeds(schema, ty, m, e2);
    e1.to_multiset_ensures();
    e2.to_multiset_ensures();
    if all_resolve(schema, ty, e1) {
        assert forall|k: int| 0 <= k < e2.len() implies resolve(
            schema,
            ty,
            path_segments(#[trigger] e2[k]),
            0,
        ) is Ok by {
            assert(e2.contains(e2[k]));
            assert(e1.to_multiset().count(e2[k]) > 0);
            assert(e1.contains(e2[k]));
            let q = choose|q: int| 0 <= q < e1.len() && e1[q] == e2[k];
            assert(resolve(schema, ty, path_segments(e1[q]), 0) is Ok);
        }
        lemma_include_all_ignores_order(schema, ty, m, e1, e2);
    }
    if all_resolve(schema, ty, e2) {
        assert forall|k: int| 0 <= k < e1.len() implies resolve(
            schema,
            ty,
            path_segments(#[trigger] e1[k]),
            0,
        ) is Ok by {
            assert(e1.contains(e1[k]));
            assert(e2.to_multiset().count(e1[k]) > 0);
            assert(e2.contains(e1[k]));
            let q = choose|q: int| 0 <= q < e2.len() && e2[q] == e1[k];
            assert(resolve(schema, ty, path_segments(e2[q]), 0) is Ok);
        }
    }
}

/// Projecting twice by one mask is the same as projecting once.
pub proof fn lemma_project_is_idempotent(
    schema: &Schema,
    ty: TypeRef,
    v: ValueView,
    m: MaskView,
    normalize: bool,
)
    ensures
        project_view(schema, ty, project_view(schema, ty, v, m, normalize), m, normalize)
            == project_view(schema, ty, v, m, normalize),
    decreases v,
{
    let once = project_view(schema, ty, v, m, normalize);
    let twice = project_view(schema, ty, once, m, normalize);
    match ty {
        TypeRef::Message(i) => {
            if schema.is_struct(i as int) && v is Record {
                let fields = v->Record_0;
                if m == empty_mask(schema, ty) {
                    if normalize {
                        assert forall|j: int| 0 <= j < fields.len() implies twice->Record_0[j]
                            == once->Record_0[j] by {
                            if j < schema.arity(i as int) {
                                lemma_project_is_idempotent(
                                    schema,
                                    schema.field(i as int, j).ty,
                                    fields[j],
                                    empty_mask(schema, schema.field(i as int, j).ty),
                                    normalize,
                                );
                            }
                        }
                        assert(twice->Record_0 =~= once->Record_0);
                    }
                } else {
                    assert forall|j: int| 0 <= j < fields.len() implies twice->Record_0[j]
                        == once->Record_0[j] by {
                        if j < schema.arity(i as int) {
                            match slot_at(schema, ty, m, j) {
                                Some(child) => {
                                    lemma_project_is_idempotent(
                                        schema,
                                        schema.field(i as int, j).ty,
                                        fields[j],
                                        child,
                                        normalize,
                                    );
                                },
                                None => {},
                            }
                        }
                    }
                    assert(twice->Record_0 =~= once->Record_0);
                }
            }
        },
        TypeRef::Optional(inner) => {
            if v is Optional && v->Optional_0 is Some {
                let x = *v->Optional_0->0;
                match *inner {
                    TypeRef::Optional(_) => {
                        lemma_project_is_idempotent(schema, *inner, x, m, normalize);
                    },
                    TypeRef::Message(i) => {
                        if schema.is_struct(i as int) {
                            lemma_project_is_idempotent(schema, *inner, x, m, normalize);
                        } else if schema.is_union(i as int) {
                            if x is Variant && x->Variant_0 < schema.arity(i as int) {
                                let k = x->Variant_0;
                                let payload_ty = schema.field(i as int, k as int).ty;
                                if m == empty_mask(schema, ty) {
                                    lemma_project_is_idempotent(
                                        schema,
                                        payload_ty,
                                        *x->Variant_1,
                                        empty_mask(schema, payload_ty),
                                        normalize,
                                    );
                                } else if slot_at(schema, ty, m, k as int) is Some {
                                    lemma_project_is_idempotent(
                                        schema,
                                        payload_ty,
                                        *x->Variant_1,
                                        slot_at(schema, ty, m, k as int)->0,
                                        normalize,
                                    );
                                }
                            }
                        }
                    },
                    _ => {},
                }
            }
        },
        _ => {},
    }
}

/// The value `v` with every optional that holds a default made absent,
/// as projection by the mask that selects nothing does with `normalize`.
pub open spec fn normalized(schema: &Schema, ty: TypeRef, v: ValueView) -> ValueView {
    project_view(schema, ty, v, empty_mask(schema, ty), true)
}

/// An optional wrapper changes nothing about the masks that select
/// everything and nothing.
pub proof fn lemma_optional_full_mask(schema: &Schema, inner: TypeRef)
    ensures
        full_mask(schema, TypeRef::Optional(Box::new(inner))) == full_mask(schema, inner),
        empty_mask(schema, TypeRef::Optional(Box::new(inner))) == empty_mask(schema, inner),
{
    lemma_optional_mask(schema, inner, empty_mask(schema, inner));
}

/// Normalising the default value of a type gives it back.
pub proof fn lemma_default_is_normalized(schema: &Schema, ty: TypeRef)
    requires
        schema.wf(),
        schema.type_ok(ty, true),
    ensures
        normalized(schema, ty, default_view(schema, ty)) == default_view(schema, ty),
    decreases direct_rank(ty),
{
    match ty {
        TypeRef::Message(i) => {
            if schema.is_struct(i as int) {
                let d = default_view(schema, ty);
                let n = normalized(schema, ty, d);
                assert(schema.info_ok(i as int));
                assert forall|j: int| 0 <= j < schema.arity(i as int) implies n->Record_0[j]
                    == d->Record_0[j] by {
                    assert(schema.field_ok(i as int, j));
                    lemma_default_is_normalized(schema, schema.field(i as int, j).ty);
                }
                assert(n->Record_0 =~= d->Record_0);
            }
        },
        _ => {},
    }
}

/// Projecting by the mask that selects everything keeps the value, up to
/// normalisation: the projection and the value have the same normalised
/// form.
pub proof fn lemma_full_mask_keeps_everything(
    schema: &Schema,
    ty: TypeRef,
    v: ValueView,
    normalize: bool,
)
    requires
        schema.wf(),
        schema.type_ok(ty, true),
        conforms_view(schema, v, ty),
    ensures
        normalized(schema, ty, project_view(schema, ty, v, full_mask(schema, ty), normalize))
            == normalized(schema, ty, v),
    decreases v,
{
    let all = full_mask(schema, ty);
    let none = empty_mask(schema, ty);
    let kept = project_view(schema, ty, v, all, normalize);
    if !has_slots(schema, ty) {
        lemma_empty_mask_keeps_everything(schema, ty, v, normalize);
        return ;
    }
    match ty {
        TypeRef::Message(i) => {
            if schema.is_struct(i as int) {
                let fields = v->Record_0;
                assert(schema.info_ok(i as int));
                assert(has_slots(schema, ty));
                assert(core_index(ty) == i);
                let a = normalized(schema, ty, kept);
                let b = normalized(schema, ty, v);
                assert forall|j: int| 0 <= j < fields.len() implies a->Record_0[j]
                    == b->Record_0[j] by {
                    let f = schema.field(i as int, j);
                    assert(schema.field_ok(i as int, j));
                    assert(slot_at(schema, ty, all, j) == Some(full_mask(schema, f.ty)));
                    assert(f.is_flatten ==> has_slots(schema, f.ty));
                    assert(conforms_view(schema, fields[j], f.ty));
                    lemma_full_mask_keeps_everything(schema, f.ty, fields[j], normalize);
                }
                assert(a->Record_0 =~= b->Record_0);
            }
        },
        TypeRef::Optional(inner) => {
            lemma_optional_full_mask(schema, *inner);
            assert(schema.type_ok(*inner, false));
            if v->Optional_0 is Some {
                let x = *v->Optional_0->0;
                assert(conforms_view(schema, x, *inner));
                match *inner {
                    TypeRef::Optional(_) => {
                        assert(schema.type_ok(*inner, true));
                        lemma_full_mask_keeps_everything(schema, *inner, x, normalize);
                    },
                    TypeRef::Message(i) => {
                        if schema.is_struct(i as int) {
                            assert(schema.type_ok(*inner, true));
                            lemma_full_mask_keeps_everything(schema, *inner, x, normalize);
                            lemma_default_is_normalized(schema, *inner);
                        } else if schema.is_union(i as int) {
                            let k = x->Variant_0;
                            let payload_ty = schema.field(i as int, k as int).ty;
                            assert(schema.info_ok(i as int));
                            assert(schema.field_ok(i as int, k as int));
                            assert(has_slots(schema, ty));
                            assert(core_index(ty) == i);
                            assert(slot_at(schema, ty, all, k as int) == Some(
                                full_mask(schema, payload_ty),
                            ));
                            lemma_full_mask_keeps_everything(
                                schema,
                                payload_ty,
                                *x->Variant_1,
                                normalize,
                            );
                        }
                    },
                    _ => {},
                }
            }
        },
        _ => {},
    }
}

/// With normalisation, projecting by the mask that selects everything is
/// projecting by the mask that selects nothing: both give the normalised
/// form of the value.
pub proof fn lemma_full_mask_normalizes(schema: &Schema, ty: TypeRef, v: ValueView)
    requires
        schema.wf(),
        schema.type_ok(ty, true),
        conforms_view(schema, v, ty),
    ensures
        project_view(schema, ty, v, full_mask(schema, ty), true) == normalized(schema, ty, v),
    decreases v,
{
    let all = full_mask(schema, ty);
    let none = empty_mask(schema, ty);
    let a = project_view(schema, ty, v, all, true);
    let b = normalized(schema, ty, v);
    if !has_slots(schema, ty) {
        return ;
    }
    match ty {
        TypeRef::Message(i) => {
            if schema.is_struct(i as int) {
                let fields = v->Record_0;
                assert(schema.info_ok(i as int));
                assert(has_slots(schema, ty));
                assert(core_index(ty) == i);
                assert forall|j: int| 0 <= j < fields.len() implies a->Record_0[j]
                    == b->Record_0[j] by {
                    let f = schema.field(i as int, j);
                    assert(schema.field_ok(i as int, j));
                    assert(slot_at(schema, ty, all, j) == Some(full_mask(schema, f.ty)));
                    assert(f.is_flatten ==> has_slots(schema, f.ty));
                    assert(conforms_view(schema, fields[j], f.ty));
                    lemma_full_mask_normalizes(schema, f.ty, fields[j]);
                }
                assert(a->Record_0 =~= b->Record_0);
            }
        },
        TypeRef::Optional(inner) => {
            lemma_optional_full_mask(schema, *inner);
            assert(schema.type_ok(*inner, false));
            if v->Optional_0 is Some {
                let x = *v->Optional_0->0;
                assert(conforms_view(schema, x, *inner));
                match *inner {
                    TypeRef::Optional(_) => {
                        assert(schema.type_ok(*inner, true));
                        lemma_full_mask_normalizes(schema, *inner, x);
                    },
                    TypeRef::Message(i) => {
                        if schema.is_struct(i as int) {
                            assert(schema.type_ok(*inner, true));
                            lemma_full_mask_normalizes(schema, *inner, x);
                        } else if schema.is_union(i as int) {
                            let k = x->Variant_0;
                            let payload_ty = schema.field(i as int, k as int).ty;
                            assert(schema.info_ok(i as int));
                            assert(schema.field_ok(i as int, k as int));
                            assert(has_slots(schema, ty));
                            assert(core_index(ty) == i);
                            assert(slot_at(schema, ty, all, k as int) == Some(
                                full_mask(schema, payload_ty),
                            ));
                            lemma_full_mask_normalizes(schema, payload_ty, *x->Variant_1);
                        }
                    },
                    _ => {},
                }
            }
        },
        _ => {},
    }
}

/// Projecting by the mask that selects nothing, without normalisation,
/// keeps the value exactly.
pub proof fn lemma_empty_mask_keeps_value(schema: &Schema, ty: TypeRef, v: ValueView)
    ensures
        project_view(schema, ty, v, empty_mask(schema, ty), false) == v,
    decreases v,
{
    match ty {
        TypeRef::Optional(inner) => {
            lemma_optional_full_mask(schema, *inner);
            if v is Optional && v->Optional_0 is Some {
                match *inner {
                    TypeRef::Optional(_) => {
                        lemma_empty_mask_keeps_value(schema, *inner, *v->Optional_0->0);
                    },
                    _ => {},
                }
            }
        },
        _ => {},
    }
}

/// Projecting by the mask that selects nothing keeps the value, up to
/// normalisation.
pub proof fn lemma_empty_mask_keeps_everything(
    schema: &Schema,
    ty: TypeRef,
    v: ValueView,
    normalize: bool,
)
    ensures
        normalized(schema, ty, project_view(schema, ty, v, empty_mask(schema, ty), normalize))
            == normalized(schema, ty, v),
{
    if normalize {
        lemma_project_is_idempotent(schema, ty, v, empty_mask(schema, ty), true);
    } else {
        lemma_empty_mask_keeps_value(schema, ty, v);
    }
}

/// At the top level a projection takes the mask that selects nothing as
/// the mask that selects everything: the two projections have the same
/// normalised form.
pub proof fn lemma_empty_mask_projects_as_full(
    schema: &Schema,
    ty: TypeRef,
    v: ValueView,
    normalize: bool,
)
    requires
        schema.wf(),
        schema.type_ok(ty, true),
        conforms_view(schema, v, ty),
    ensures
        normalized(schema, ty, project_view(schema, ty, v, empty_mask(schema, ty), normalize))
            == normalized(
            schema,
            ty,
            project_view(schema, ty, v, full_mask(schema, ty), normalize),
        ),
{
    lemma_empty_mask_keeps_everything(schema, ty, v, normalize);
    lemma_full_mask_keeps_everything(schema, ty, v, normalize);
}

/// A projection by a mask that selects something resets a field of a
/// record whose slot is absent to its default.
pub proof fn lemma_project_resets_unselected_field(
    schema: &Schema,
    i: usize,
    v: ValueView,
    m: MaskView,
    normalize: bool,
    j: int,
)
    requires
        schema.is_struct(i as int),
        conforms_view(schema, v, TypeRef::Message(i)),
        fits(schema, TypeRef::Message(i), m),
        m != empty_mask(schema, TypeRef::Message(i)),
        0 <= j < schema.arity(i as int),
        slot_at(schema, TypeRef::Message(i), m, j) is None,
    ensures
        project_view(schema, TypeRef::Message(i), v, m, normalize) is Record,
        project_view(schema, TypeRef::Message(i), v, m, normalize)->Record_0[j] == default_view(
            schema,
            schema.field(i as int, j).ty,
        ),
{
}

/// Including a route twice is including it once.
pub proof fn lemma_include_route_is_idempotent(
    schema: &Schema,
    ty: TypeRef,
    m: MaskView,
    route: Seq<usize>,
)
    ensures
        include_route(schema, ty, include_route(schema, ty, m, route), route) == include_route(
            schema,
            ty,
            m,
            route,
        ),
{
    lemma_whole_field_absorbs(schema, ty, m, route, Seq::empty());
    assert(route + Seq::<usize>::empty() =~= route);
}

/// Whether `b` selects at least what `a` selects: `b` is whole, or
/// neither is and every slot that is present in `a` is present in `b`,
/// with a mask that selects at least as much.
pub open spec fn mask_within(a: MaskView, b: MaskView) -> bool
    decreases a,
{
    b.whole || {
        &&& !a.whole
        &&& a.slots.len() == b.slots.len()
        &&& forall|j: int|
            0 <= j < a.slots.len() && (#[trigger] a.slots[j]) is Some ==> b.slots[j] is Some
                && mask_within(a.slots[j]->0, b.slots[j]->0)
    }
}

/// Every mask selects at least what it selects.
pub proof fn lemma_mask_within_itself(m: MaskView)
    ensures
        mask_within(m, m),
    decreases m,
{
    assert forall|j: int| 0 <= j < m.slots.len() && (#[trigger] m.slots[j]) is Some implies
        mask_within(m.slots[j]->0, m.slots[j]->0) by {
        lemma_mask_within_itself(m.slots[j]->0);
    }
}

/// A mask only grows: after a route is included it selects at least what
/// it selected before.
pub proof fn lemma_include_route_grows(schema: &Schema, ty: TypeRef, m: MaskView, route: Seq<usize>)
    requires
        fits(schema, ty, m),
    ensures
        mask_within(m, include_route(schema, ty, m, route)),
    decreases route.len(),
{
    let after = include_route(schema, ty, m, route);
    if route.len() == 0 {
        if !has_slots(schema, ty) {
            lemma_mask_within_itself(m);
        }
    } else if !m.whole && route[0] < m.slots.len() {
        let k = route[0] as int;
        let child_ty = schema.field(core_index(ty), k).ty;
        if !after.whole {
            assert forall|j: int|
                0 <= j < m.slots.len() && (#[trigger] m.slots[j]) is Some implies after.slots[j] is Some
                && mask_within(m.slots[j]->0, after.slots[j]->0) by {
                if j == k {
                    lemma_include_route_grows(schema, child_ty, m.slots[k]->0, route.drop_first());
                } else {
                    lemma_mask_within_itself(m.slots[j]->0);
                }
            }
        }
    } else {
        lemma_mask_within_itself(m);
    }
}

/// Merging the default value of a type into a value changes nothing, as
/// long as neither repeated fields nor records are replaced.
pub proof fn lemma_merge_of_default_changes_nothing(
    schema: &Schema,
    ty: TypeRef,
    t: ValueView,
    options: UpdateOptions,
)
    requires
        schema.wf(),
        schema.type_ok(ty, true),
        conforms_view(schema, t, ty),
        !options.replace_repeated,
        !options.replace_message,
    ensures
        merge_view(schema, ty, t, default_view(schema, ty), options) == t,
    decreases t,
{
    let d = default_view(schema, ty);
    let r = merge_view(schema, ty, t, d, options);
    match ty {
        TypeRef::List(_) => {
            assert(r->List_0 =~= t->List_0);
        },
        TypeRef::Message(i) => {
            if schema.is_struct(i as int) {
                assert(schema.info_ok(i as int));
                assert forall|j: int| 0 <= j < t->Record_0.len() implies r->Record_0[j]
                    == t->Record_0[j] by {
                    assert(schema.field_ok(i as int, j));
                    assert(conforms_view(schema, t->Record_0[j], schema.field(i as int, j).ty));
                    lemma_merge_of_default_changes_nothing(
                        schema,
                        schema.field(i as int, j).ty,
                        t->Record_0[j],
                        options,
                    );
                }
                assert(r->Record_0 =~= t->Record_0);
            }
        },
        _ => {},
    }
}

/// The value `v` of type `ty` with every optional record that has fields
/// and holds the default made absent, from the inside out, and nothing
/// else changed.
pub open spec fn collapsed(schema: &Schema, ty: TypeRef, v: ValueView) -> ValueView
    decreases v,
{
    match ty {
        TypeRef::Message(i) => if schema.is_struct(i as int) && v is Record {
            ValueView::Record(
                Seq::new(
                    v->Record_0.len(),
                    |j: int|
                        if 0 <= j < v->Record_0.len() && j < schema.arity(i as int) {
                            collapsed(schema, schema.field(i as int, j).ty, v->Record_0[j])
                        } else {
                            no_value()
                        },
                ),
            )
        } else {
            v
        },
        TypeRef::Optional(inner) => if v is Optional && v->Optional_0 is Some {
            let x = *v->Optional_0->0;
            match *inner {
                TypeRef::Optional(_) => ValueView::Optional(
                    Some(Box::new(collapsed(schema, *inner, x))),
                ),
                TypeRef::Message(i) => if schema.is_struct(i as int) {
                    let c = collapsed(schema, *inner, x);
                    if schema.arity(i as int) > 0 && c == default_view(schema, *inner) {
                        ValueView::Optional(None)
                    } else {
                        ValueView::Optional(Some(Box::new(c)))
                    }
                } else if schema.is_union(i as int) && x is Variant && x->Variant_0
                    < schema.arity(i as int) {
                    ValueView::Optional(
                        Some(
                            Box::new(
                                ValueView::Variant(
                                    x->Variant_0,
                                    Box::new(
                                        collapsed(
                                            schema,
                                            schema.field(i as int, x->Variant_0 as int).ty,
                                            *x->Variant_1,
                                        ),
                                    ),
                                ),
                            ),
                        ),
                    )
                } else {
                    v
                },
                _ => v,
            }
        } else {
            v
        },
        _ => v,
    }
}

/// Nothing is collapsed in a value of a type whose masks have no slots.
pub proof fn lemma_collapsed_without_slots(schema: &Schema, ty: TypeRef, v: ValueView)
    requires
        !has_slots(schema, ty),
        conforms_view(schema, v, ty),
    ensures
        collapsed(schema, ty, v) == v,
    decreases v,
{
    match ty {
        TypeRef::Message(i) => {
            if schema.is_struct(i as int) {
                assert(collapsed(schema, ty, v)->Record_0 =~= v->Record_0);
            }
        },
        TypeRef::Optional(inner) => {
            lemma_optional_mask(schema, *inner, empty_mask(schema, *inner));
            if v->Optional_0 is Some {
                let x = *v->Optional_0->0;
                match *inner {
                    TypeRef::Optional(_) => {
                        lemma_collapsed_without_slots(schema, *inner, x);
                    },
                    TypeRef::Message(i) => {
                        if schema.is_struct(i as int) {
                            lemma_collapsed_without_slots(schema, *inner, x);
                        }
                    },
                    _ => {},
                }
            }
        },
        _ => {},
    }
}

/// Projecting by the mask that selects everything, without normalisation,
/// keeps the value but for this: an optional record that has fields and
/// holds the default becomes absent. No other field differs.
pub proof fn lemma_full_mask_keeps_value(schema: &Schema, ty: TypeRef, v: ValueView)
    requires
        schema.wf(),
        schema.type_ok(ty, true),
        conforms_view(schema, v, ty),
    ensures
        project_view(schema, ty, v, full_mask(schema, ty), false) == collapsed(schema, ty, v),
    decreases v,
{
    let all = full_mask(schema, ty);
    let a = project_view(schema, ty, v, all, false);
    let b = collapsed(schema, ty, v);
    if !has_slots(schema, ty) {
        lemma_empty_mask_keeps_value(schema, ty, v);
        lemma_collapsed_without_slots(schema, ty, v);
        return ;
    }
    match ty {
        TypeRef::Message(i) => {
            if schema.is_struct(i as int) {
                let fields = v->Record_0;
                assert(schema.info_ok(i as int));
                assert(has_slots(schema, ty));
                assert(core_index(ty) == i);
                assert forall|j: int| 0 <= j < fields.len() implies a->Record_0[j]
                    == b->Record_0[j] by {
                    let f = schema.field(i as int, j);
                    assert(schema.field_ok(i as int, j));
                    assert(slot_at(schema, ty, all, j) == Some(full_mask(schema, f.ty)));
                    assert(f.is_flatten ==> has_slots(schema, f.ty));
                    assert(conforms_view(schema, fields[j], f.ty));
                    lemma_full_mask_keeps_value(schema, f.ty, fields[j]);
                }
                assert(a->Record_0 =~= b->Record_0);
            }
        },
        TypeRef::Optional(inner) => {
            lemma_optional_full_mask(schema, *inner);
            assert(schema.type_ok(*inner, false));
            if v->Optional_0 is Some {
                let x = *v->Optional_0->0;
                assert(conforms_view(schema, x, *inner));
                match *inner {
                    TypeRef::Optional(_) => {
                        assert(schema.type_ok(*inner, true));
                        lemma_full_mask_keeps_value(schema, *inner, x);
                    },
                    TypeRef::Message(i) => {
                        if schema.is_struct(i as int) {
                            assert(schema.type_ok(*inner, true));
                            assert(has_slots(schema, *inner));
                            lemma_full_mask_keeps_value(schema, *inner, x);
                        } else if schema.is_union(i as int) {
                            let k = x->Variant_0;
                            let payload_ty = schema.field(i as int, k as int).ty;
                            assert(schema.info_ok(i as int));
                            assert(schema.field_ok(i as int, k as int));
                            assert(has_slots(schema, ty));
                            assert(core_index(ty) == i);
                            assert(slot_at(schema, ty, all, k as int) == Some(
                                full_mask(schema, payload_ty),
                            ));
                            lemma_full_mask_keeps_value(schema, payload_ty, *x->Variant_1);
                        }
                    },
                    _ => {},
                }
            }
        },
        _ => {},
    }
}

/// What an absent target becomes is what its default becomes: updating
/// the default value of a type from a source, with everything selected,
/// gives `filled_view`.
pub proof fn lemma_absent_target_is_filled(
    schema: &Schema,
    ty: TypeRef,
    s: ValueView,
    options: UpdateOptions,
)
    requires
        schema.wf(),
        schema.type_ok(ty, true),
        conforms_view(schema, s, ty),
    ensures
        update_all_view(schema, ty, default_view(schema, ty), s, options) == filled_view(
            schema,
            ty,
            s,
            options,
        ),
    decreases s,
{
    let d = default_view(schema, ty);
    let a = update_all_view(schema, ty, d, s, options);
    let b = filled_view(schema, ty, s, options);
    match ty {
        TypeRef::Message(i) => {
            if schema.is_struct(i as int) {
                assert(schema.info_ok(i as int));
                assert forall|j: int| 0 <= j < schema.arity(i as int) implies a->Record_0[j]
                    == b->Record_0[j] by {
                    assert(schema.field_ok(i as int, j));
                    assert(conforms_view(schema, s->Record_0[j], schema.field(i as int, j).ty));
                    lemma_absent_target_is_filled(
                        schema,
                        schema.field(i as int, j).ty,
                        s->Record_0[j],
                        options,
                    );
                }
                assert(a->Record_0 =~= b->Record_0);
            }
        },
        _ => {},
    }
}

/// The mask `m` of `ty` with each of the first `n` slots selected as a
/// whole, one after the other.
pub open spec fn first_slots_included(schema: &Schema, ty: TypeRef, m: MaskView, n: nat) -> MaskView
    decreases n,
{
    if n == 0 {
        m
    } else {
        include_route(
            schema,
            ty,
            first_slots_included(schema, ty, m, (n - 1) as nat),
            seq![(n - 1) as usize],
        )
    }
}

/// After the first `n` slots are selected, the mask is whole or each of
/// them holds the mask that selects everything.
proof fn lemma_first_slots_are_full(schema: &Schema, ty: TypeRef, m: MaskView, n: nat)
    requires
        fits(schema, ty, m),
        has_slots(schema, ty),
        n <= schema.arity(core_index(ty)),
    ensures
        ({
            let r = first_slots_included(schema, ty, m, n);
            r == whole_mask() || {
                &&& !r.whole
                &&& r.slots.len() == schema.arity(core_index(ty))
                &&& forall|j: int|
                    0 <= j < n ==> (#[trigger] r.slots[j]) == Some(
                        full_mask(schema, schema.field(core_index(ty), j).ty),
                    )
                &&& n == schema.arity(core_index(ty)) ==> n == 0
            }
        }),
    decreases n,
{
    if n > 0 {
        let before = first_slots_included(schema, ty, m, (n - 1) as nat);
        lemma_first_slots_are_full(schema, ty, m, (n - 1) as nat);
        let k = (n - 1) as int;
        let route = seq![(n - 1) as usize];
        assert(route.drop_first() =~= Seq::<usize>::empty());
        assert(schema.arity(core_index(ty)) == schema.types@[core_index(ty)].fields.len());
        assert(((n - 1) as usize) as int == k);
        let r = include_route(schema, ty, before, route);
        if !before.whole {
            let child_ty = schema.field(core_index(ty), k).ty;
            let u = before.slots.update(k, Some(full_mask(schema, child_ty)));
            let child = match before.slots[k] {
                Some(c) => c,
                None => empty_mask(schema, child_ty),
            };
            assert(route[0] as int == k);
            assert(include_route(schema, child_ty, child, route.drop_first()) == full_mask(
                schema,
                child_ty,
            ));
            assert(r == tidy(schema, ty, u));
            if !r.whole {
                assert forall|j: int| 0 <= j < n implies (#[trigger] r.slots[j]) == Some(
                    full_mask(schema, schema.field(core_index(ty), j).ty),
                ) by {
                    if j < k {
                        assert(before.slots[j] == Some(
                            full_mask(schema, schema.field(core_index(ty), j).ty),
                        ));
                    }
                }
            }
        } else {
            assert(before.slots =~= whole_mask().slots);
        }
    } else {
        if m.whole {
            assert(m.slots =~= whole_mask().slots);
        }
    }
}

/// Selecting every slot of a record or a union, one by one, is selecting
/// everything: the result is the mask that selects everything.
pub proof fn lemma_every_slot_is_everything(schema: &Schema, ty: TypeRef, m: MaskView)
    requires
        fits(schema, ty, m),
        has_slots(schema, ty),
    ensures
        first_slots_included(schema, ty, m, schema.arity(core_index(ty))) == full_mask(schema, ty),
{
    lemma_first_slots_are_full(schema, ty, m, schema.arity(core_index(ty)));
}

/// A list that holds, for each field of a record (or each variant of a
/// union) in turn, a path that selects that field, selects everything: it
/// builds the mask that selects everything.
pub proof fn lemma_every_field_is_everything(schema: &Schema, ty: TypeRef, entries: Seq<Seq<char>>)
    requires
        schema.wf(),
        has_slots(schema, ty),
        entries.len() == schema.arity(core_index(ty)),
        forall|j: int|
            0 <= j < entries.len() ==> resolve(
                schema,
                ty,
                path_segments(#[trigger] entries[j]),
                0,
            ) == Ok::<Seq<usize>, MaskErrorView>(seq![j as usize]),
    ensures
        build(schema, ty, entries) == Ok::<MaskView, MaskErrorView>(full_mask(schema, ty)),
{
    lemma_empty_fits(schema, ty);
    let none = empty_mask(schema, ty);
    lemma_every_slot_is_everything(schema, ty, none);
    lemma_rest_of_fields(schema, ty, entries, 0);
    assert(entries.skip(0) =~= entries);
}

/// Including the paths from position `n` on, after the first `n` slots
/// are selected, selects every slot.
proof fn lemma_rest_of_fields(schema: &Schema, ty: TypeRef, entries: Seq<Seq<char>>, n: nat)
    requires
        n <= entries.len(),
        entries.len() == schema.arity(core_index(ty)),
        forall|j: int|
            0 <= j < entries.len() ==> resolve(
                schema,
                ty,
                path_segments(#[trigger] entries[j]),
                0,
            ) == Ok::<Seq<usize>, MaskErrorView>(seq![j as usize]),
    ensures
        include_all(
            schema,
            ty,
            first_slots_included(schema, ty, empty_mask(schema, ty), n),
            entries.skip(n as int),
        ) == Ok::<MaskView, MaskErrorView>(
            first_slots_included(schema, ty, empty_mask(schema, ty), entries.len()),
        ),
    decreases entries.len() - n,
{
    let rest = entries.skip(n as int);
    if n < entries.len() {
        assert(rest[0] == entries[n as int]);
        assert(rest.drop_first() =~= entries.skip(n as int + 1));
        lemma_rest_of_fields(schema, ty, entries, n + 1);
    }
}

} // verus!
