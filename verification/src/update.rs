//! Updating: copying what a mask selects from a source into a target.

use vstd::prelude::*;
use crate::node::{
    empty_mask, fits, full_mask, full_node, group_mask_views, lemma_optional_mask,
    lemma_type_ok_weakens, node_is_empty, slot_view, MaskNode, MaskView,
};
use crate::merge::{merge_value, merge_view};
use crate::options::UpdateOptions;
use crate::project::{project_value, project_view};
use crate::schema::{MessageField, MessageType, Schema, TypeRef};
use crate::typing::{conforms_view, default_view};
use crate::value::{group_value_views, no_value, views_of, Value, ValueView};

verus! {

/// The value that an optional source stands for where the target is an
/// optional of an optional: what it holds, or absent.
pub open spec fn flattened(s: ValueView) -> ValueView {
    match s {
        ValueView::Optional(Some(y)) => *y,
        _ => ValueView::Optional(None),
    }
}

/// The default value of `ty` after it is updated from the source `s` with
/// everything selected: what an absent target becomes.
///
/// A leaf takes the source; a record takes each field of the source in
/// this way; an optional is present where the source is, and holds what
/// the source holds, taken in this way; a union takes the variant of the
/// source, with its payload projected by the mask that selects everything.
pub open spec fn filled_view(schema: &Schema, ty: TypeRef, s: ValueView, options: UpdateOptions) -> ValueView
    decreases s, ty,
{
    match ty {
        TypeRef::List(_) => merge_view(schema, ty, default_view(schema, ty), s, options),
        TypeRef::Message(i) => if schema.is_struct(i as int) {
            if s is Record {
                ValueView::Record(
                    Seq::new(
                        schema.arity(i as int),
                        |j: int|
                            if 0 <= j < schema.arity(i as int) && j < s->Record_0.len() {
                                filled_view(
                                    schema,
                                    schema.field(i as int, j).ty,
                                    s->Record_0[j],
                                    options,
                                )
                            } else {
                                no_value()
                            },
                    ),
                )
            } else {
                default_view(schema, ty)
            }
        } else {
            s
        },
        TypeRef::Optional(inner) => if s is Optional {
            let so = s->Optional_0;
            match *inner {
                TypeRef::Optional(_) => {
                    let r = filled_view(schema, *inner, flattened(s), options);
                    if r is Optional && r->Optional_0 is Some {
                        ValueView::Optional(Some(Box::new(r)))
                    } else {
                        ValueView::Optional(None)
                    }
                },
                TypeRef::Message(i) if schema.is_enumeration(i as int) => s,
                TypeRef::Message(i) if schema.is_union(i as int) => if so is Some && *so->0 is Variant
                    && so->0->Variant_0 < schema.arity(i as int) {
                    let k = so->0->Variant_0;
                    let payload_ty = schema.field(i as int, k as int).ty;
                    ValueView::Optional(
                        Some(
                            Box::new(
                                ValueView::Variant(
                                    k,
                                    Box::new(
                                        project_view(
                                            schema,
                                            payload_ty,
                                            *so->0->Variant_1,
                                            full_mask(schema, payload_ty),
                                            false,
                                        ),
                                    ),
                                ),
                            ),
                        ),
                    )
                } else {
                    ValueView::Optional(None)
                },
                _ => match so {
                    Some(y) => ValueView::Optional(
                        Some(Box::new(filled_view(schema, *inner, *y, options))),
                    ),
                    None => ValueView::Optional(None),
                },
            }
        } else {
            ValueView::Optional(None)
        },
        _ => s,
    }
}

/// The target `t` of type `ty` after it is updated from the source `s` with
/// everything selected.
///
/// A leaf takes the source, and a repeated field is merged. In a record
/// every field is updated in this way. For an optional record or leaf:
/// where both are present the payloads are updated; where only the target
/// is present it is updated from the default; where only the source is
/// present the default is updated from it; where both are absent nothing
/// changes. An optional tag takes the source. For a union: where the
/// source holds a variant, the payloads are updated if the target holds
/// the same variant, else the target takes the variant of the source with
/// its payload projected by the mask that selects everything; where the
/// source holds none, the payload of the target is updated from the
/// default.
pub open spec fn update_all_view(
    schema: &Schema,
    ty: TypeRef,
    t: ValueView,
    s: ValueView,
    options: UpdateOptions,
) -> ValueView
    decreases t, ty,
{
    match ty {
        TypeRef::List(_) => merge_view(schema, ty, t, s, options),
        TypeRef::Message(i) => if schema.is_struct(i as int) {
            if t is Record && s is Record {
                ValueView::Record(
                    Seq::new(
                        t->Record_0.len(),
                        |j: int|
                            if 0 <= j < t->Record_0.len() && j < s->Record_0.len() && j
                                < schema.arity(i as int) {
                                update_all_view(
                                    schema,
                                    schema.field(i as int, j).ty,
                                    t->Record_0[j],
                                    s->Record_0[j],
                                    options,
                                )
                            } else {
                                no_value()
                            },
                    ),
                )
            } else {
                t
            }
        } else {
            s
        },
        TypeRef::Optional(inner) => if t is Optional && s is Optional {
            let to = t->Optional_0;
            let so = s->Optional_0;
            match *inner {
                TypeRef::Optional(_) => match to {
                    Some(x) => ValueView::Optional(
                        Some(Box::new(update_all_view(schema, *inner, *x, flattened(s), options))),
                    ),
                    None => {
                        let r = filled_view(schema, *inner, flattened(s), options);
                        if r is Optional && r->Optional_0 is Some {
                            ValueView::Optional(Some(Box::new(r)))
                        } else {
                            t
                        }
                    },
                },
                TypeRef::Message(i) if schema.is_enumeration(i as int) => s,
                TypeRef::Message(i) if schema.is_union(i as int) => if so is Some && *so->0 is Variant
                    && so->0->Variant_0 < schema.arity(i as int) {
                    let k = so->0->Variant_0;
                    let payload_ty = schema.field(i as int, k as int).ty;
                    if to is Some && *to->0 is Variant && to->0->Variant_0 == k {
                        ValueView::Optional(
                            Some(
                                Box::new(
                                    ValueView::Variant(
                                        k,
                                        Box::new(
                                            update_all_view(
                                                schema,
                                                payload_ty,
                                                *to->0->Variant_1,
                                                *so->0->Variant_1,
                                                options,
                                            ),
                                        ),
                                    ),
                                ),
                            ),
                        )
                    } else {
                        filled_view(schema, ty, s, options)
                    }
                } else if to is Some && *to->0 is Variant && to->0->Variant_0 < schema.arity(
                    i as int,
                ) {
                    let k = to->0->Variant_0;
                    let payload_ty = schema.field(i as int, k as int).ty;
                    ValueView::Optional(
                        Some(
                            Box::new(
                                ValueView::Variant(
                                    k,
                                    Box::new(
                                        update_all_view(
                                            schema,
                                            payload_ty,
                                            *to->0->Variant_1,
                                            default_view(schema, payload_ty),
                                            options,
                                        ),
                                    ),
                                ),
                            ),
                        ),
                    )
                } else {
                    t
                },
                _ => match (to, so) {
                    (None, None) => t,
                    (Some(x), Some(y)) => ValueView::Optional(
                        Some(Box::new(update_all_view(schema, *inner, *x, *y, options))),
                    ),
                    (Some(x), None) => ValueView::Optional(
                        Some(
                            Box::new(
                                update_all_view(
                                    schema,
                                    *inner,
                                    *x,
                                    default_view(schema, *inner),
                                    options,
                                ),
                            ),
                        ),
                    ),
                    (None, Some(y)) => ValueView::Optional(
                        Some(Box::new(filled_view(schema, *inner, *y, options))),
                    ),
                },
            }
        } else {
            t
        },
        _ => s,
    }
}

/// The target `t` of type `ty` after it is updated from the source `s` as
/// a field of its parent, by the mask `m`.
///
/// Under a mask that is whole everything is selected. Otherwise: a leaf
/// takes the source, and a repeated field is merged. A record or a
/// union under the mask that selects nothing is merged. Otherwise, in a
/// record, each field with a present slot is updated by that slot and each
/// field with an absent slot is left as it is. For an optional record or
/// leaf: where both are present the payloads are updated; where only the
/// target is present it is updated from the default; where only the source
/// is present the default is updated from it; where both are absent
/// nothing changes. An optional tag takes the source. For a union: where
/// the slot of the variant of the source is present, the payloads are
/// updated if the target holds the same variant, else the target takes the
/// variant of the source with its payload projected by that slot;
/// otherwise, where the slot of the variant of the target is present, the
/// payload of the target is updated from the default; otherwise nothing
/// changes.
pub open spec fn update_view(
    schema: &Schema,
    ty: TypeRef,
    t: ValueView,
    s: ValueView,
    m: MaskView,
    options: UpdateOptions,
) -> ValueView
    decreases m, ty, 1int,
{
    if m.whole {
        update_all_view(schema, ty, t, s, options)
    } else {
        update_by_slots(schema, ty, t, s, m, options)
    }
}

/// What `update_view` gives by a mask that is not whole.
pub open spec fn update_by_slots(
    schema: &Schema,
    ty: TypeRef,
    t: ValueView,
    s: ValueView,
    m: MaskView,
    options: UpdateOptions,
) -> ValueView
    decreases m, ty, 0int,
{
    match ty {
        TypeRef::List(_) => merge_view(schema, ty, t, s, options),
        TypeRef::Message(i) => if schema.is_struct(i as int) {
            if t is Record && s is Record {
                if m == empty_mask(schema, ty) {
                    merge_view(schema, ty, t, s, options)
                } else {
                    ValueView::Record(
                        Seq::new(
                            t->Record_0.len(),
                            |j: int|
                                if 0 <= j < t->Record_0.len() && j < s->Record_0.len() && j
                                    < schema.arity(i as int) && j < m.slots.len() {
                                    match m.slots[j] {
                                        Some(child) => update_view(
                                            schema,
                                            schema.field(i as int, j).ty,
                                            t->Record_0[j],
                                            s->Record_0[j],
                                            child,
                                            options,
                                        ),
                                        None => t->Record_0[j],
                                    }
                                } else {
                                    no_value()
                                },
                        ),
                    )
                }
            } else {
                t
            }
        } else {
            s
        },
        TypeRef::Optional(inner) => if t is Optional && s is Optional {
            let to = t->Optional_0;
            let so = s->Optional_0;
            match *inner {
                TypeRef::Optional(_) => match to {
                    Some(x) => ValueView::Optional(
                        Some(Box::new(update_view(schema, *inner, *x, flattened(s), m, options))),
                    ),
                    None => {
                        let r = update_view(
                            schema,
                            *inner,
                            ValueView::Optional(None),
                            flattened(s),
                            m,
                            options,
                        );
                        if r is Optional && r->Optional_0 is Some {
                            ValueView::Optional(Some(Box::new(r)))
                        } else {
                            t
                        }
                    },
                },
                TypeRef::Message(i) if schema.is_enumeration(i as int) => s,
                TypeRef::Message(i) if schema.is_union(i as int) => if m == empty_mask(
                    schema,
                    ty,
                ) {
                    merge_view(schema, ty, t, s, options)
                } else if so is Some && *so->0 is Variant && so->0->Variant_0 < schema.arity(
                    i as int,
                ) && so->0->Variant_0 < m.slots.len() && m.slots[so->0->Variant_0 as int] is Some {
                    let k = so->0->Variant_0;
                    let child = m.slots[k as int]->0;
                    let payload_ty = schema.field(i as int, k as int).ty;
                    if to is Some && *to->0 is Variant && to->0->Variant_0 == k {
                        ValueView::Optional(
                            Some(
                                Box::new(
                                    ValueView::Variant(
                                        k,
                                        Box::new(
                                            update_view(
                                                schema,
                                                payload_ty,
                                                *to->0->Variant_1,
                                                *so->0->Variant_1,
                                                child,
                                                options,
                                            ),
                                        ),
                                    ),
                                ),
                            ),
                        )
                    } else {
                        ValueView::Optional(
                            Some(
                                Box::new(
                                    ValueView::Variant(
                                        k,
                                        Box::new(
                                            project_view(
                                                schema,
                                                payload_ty,
                                                *so->0->Variant_1,
                                                child,
                                                false,
                                            ),
                                        ),
                                    ),
                                ),
                            ),
                        )
                    }
                } else if to is Some && *to->0 is Variant && to->0->Variant_0 < schema.arity(
                    i as int,
                ) && to->0->Variant_0 < m.slots.len() && m.slots[to->0->Variant_0 as int] is Some {
                    let k = to->0->Variant_0;
                    let payload_ty = schema.field(i as int, k as int).ty;
                    ValueView::Optional(
                        Some(
                            Box::new(
                                ValueView::Variant(
                                    k,
                                    Box::new(
                                        update_view(
                                            schema,
                                            payload_ty,
                                            *to->0->Variant_1,
                                            default_view(schema, payload_ty),
                                            m.slots[k as int]->0,
                                            options,
                                        ),
                                    ),
                                ),
                            ),
                        ),
                    )
                } else {
                    t
                },
                _ => match (to, so) {
                    (None, None) => t,
                    (Some(x), Some(y)) => ValueView::Optional(
                        Some(Box::new(update_view(schema, *inner, *x, *y, m, options))),
                    ),
                    (Some(x), None) => ValueView::Optional(
                        Some(
                            Box::new(
                                update_view(
                                    schema,
                                    *inner,
                                    *x,
                                    default_view(schema, *inner),
                                    m,
                                    options,
                                ),
                            ),
                        ),
                    ),
                    (None, Some(y)) => ValueView::Optional(
                        Some(
                            Box::new(
                                update_view(
                                    schema,
                                    *inner,
                                    default_view(schema, *inner),
                                    *y,
                                    m,
                                    options,
                                ),
                            ),
                        ),
                    ),
                },
            }
        } else {
            t
        },
        _ => s,
    }
}

/// What an update makes of the value `x` of a field of a record, given
/// the value `y` of the field in the source and the slot of the field.
pub open spec fn field_update(
    schema: &Schema,
    f: MessageField,
    x: ValueView,
    y: ValueView,
    slot: Option<MaskView>,
    options: UpdateOptions,
) -> ValueView {
    match slot {
        Some(child) => update_view(schema, f.ty, x, y, child, options),
        None => x,
    }
}

/// The default value of `ty` updated from `s` with everything selected.
pub fn filled_value(schema: &Schema, ty: &TypeRef, s: Value, options: &UpdateOptions) -> (r: Value)
    requires
        schema.wf(),
        schema.type_ok(*ty, true),
        conforms_view(schema, s@, *ty),
    ensures
        r@ == filled_view(schema, *ty, s@, *options),
        conforms_view(schema, r@, *ty),
    decreases s, *ty,
{
    broadcast use {group_value_views, group_mask_views};

    match ty {
        TypeRef::List(_) => {
            let t = schema.default_of(ty);
            merge_value(schema, ty, t, s, options)
        },
        TypeRef::Message(i) => {
            let info = &schema.types[*i];
            match info.message_type {
                MessageType::Struct => match s {
                    Value::Record(sf) => {
                        let mut sf = sf;
                        let ghost s0 = sf@;
                        let n = info.fields.len();
                        let mut out: Vec<Value> = Vec::new();
                        let mut j: usize = 0;
                        assert(decreases_to!(s => s->Record_0));
                        assert(decreases_to!(s->Record_0 => s0));
                        while j < n
                            invariant
                                schema.wf(),
                                schema.is_struct(*i as int),
                                *ty == TypeRef::Message(*i),
                                info == schema.types@[*i as int],
                                n == schema.arity(*i as int),
                                n == sf.len(),
                                s0.len() == n,
                                s@ == ValueView::Record(views_of(s0)),
                                conforms_view(schema, s@, *ty),
                                decreases_to!(s => s0),
                                j <= n,
                                out.len() == j,
                                forall|k: int| j <= k < n ==> (#[trigger] sf@[k]) == s0[k],
                                forall|k: int|
                                    0 <= k < j ==> (#[trigger] out@[k])@ == filled_view(
                                        schema,
                                        schema.field(*i as int, k).ty,
                                        s0[k]@,
                                        *options,
                                    ),
                                forall|k: int|
                                    0 <= k < j ==> conforms_view(
                                        schema,
                                        (#[trigger] out@[k])@,
                                        schema.field(*i as int, k).ty,
                                    ),
                            decreases n - j,
                        {
                            assert(schema.info_ok(*i as int));
                            assert(schema.field_ok(*i as int, j as int));
                            let mut y = Value::Bool(false);
                            std::mem::swap(&mut y, &mut sf[j]);
                            assert(y == s0[j as int]);
                            assert(decreases_to!(s0 => s0[j as int]));
                            assert(s@->Record_0[j as int] == y@);
                            let u = filled_value(schema, &info.fields[j].ty, y, options);
                            out.push(u);
                            j += 1;
                        }
                        let r = Value::Record(out);
                        proof {
                            let e = filled_view(schema, *ty, s@, *options);
                            assert(r@->Record_0.len() == e->Record_0.len());
                            assert forall|k: int| 0 <= k < n implies r@->Record_0[k]
                                == e->Record_0[k] by {
                                assert(r@->Record_0[k] == out@[k]@);
                                assert(s@->Record_0[k] == s0[k]@);
                            }
                            assert(r@->Record_0 =~= e->Record_0);
                            assert forall|k: int| 0 <= k < n implies conforms_view(
                                schema,
                                #[trigger] r@->Record_0[k],
                                schema.field(*i as int, k).ty,
                            ) by {
                                assert(r@->Record_0[k] == out@[k]@);
                            }
                        }
                        r
                    },
                    _ => schema.default_of(ty),
                },
                _ => s,
            }
        },
        TypeRef::Optional(inner) => match s {
            Value::Optional(so) => {
                assert(schema.type_ok(**inner, false));
                match &**inner {
                    TypeRef::Optional(_) => {
                        assert(schema.type_ok(**inner, true));
                        let source = match so {
                            Some(y) => {
                                assert(conforms_view(schema, (*y)@, **inner));
                                *y
                            },
                            None => Value::Optional(None),
                        };
                        let r = filled_value(schema, &**inner, source, options);
                        let present = match &r {
                            Value::Optional(Some(_)) => true,
                            _ => false,
                        };
                        if present {
                            Value::Optional(Some(Box::new(r)))
                        } else {
                            Value::Optional(None)
                        }
                    },
                    TypeRef::Message(i) => {
                        let info = &schema.types[*i];
                        match info.message_type {
                            MessageType::UnitEnum => Value::Optional(so),
                            MessageType::Struct => match so {
                                Some(y) => {
                                    assert(conforms_view(schema, (*y)@, **inner));
                                    assert(schema.type_ok(**inner, true));
                                    Value::Optional(
                                        Some(
                                            Box::new(
                                                filled_value(schema, &**inner, *y, options),
                                            ),
                                        ),
                                    )
                                },
                                None => Value::Optional(None),
                            },
                            MessageType::TupleEnum => match so {
                                Some(y) => {
                                    assert(conforms_view(schema, (*y)@, **inner));
                                    match *y {
                                        Value::Variant(k, payload) => {
                                            assert(schema.info_ok(*i as int));
                                            assert(schema.field_ok(*i as int, k as int));
                                            let payload_ty = &info.fields[k].ty;
                                            proof {
                                                lemma_type_ok_weakens(schema, *payload_ty);
                                            }
                                            let all = full_node(schema, payload_ty);
                                            let p = project_value(
                                                schema,
                                                payload_ty,
                                                *payload,
                                                &all,
                                                false,
                                            );
                                            let held = Value::Variant(k, Box::new(p));
                                            assert(conforms_view(schema, held@, **inner));
                                            Value::Optional(Some(Box::new(held)))
                                        },
                                        _ => Value::Optional(None),
                                    }
                                },
                                None => Value::Optional(None),
                            },
                        }
                    },
                    _ => match so {
                        Some(y) => {
                            assert(conforms_view(schema, (*y)@, **inner));
                            assert(schema.type_ok(**inner, true));
                            Value::Optional(
                                Some(Box::new(filled_value(schema, &**inner, *y, options))),
                            )
                        },
                        None => Value::Optional(None),
                    },
                }
            },
            _ => Value::Optional(None),
        },
        _ => s,
    }
}

/// Updates `t` from `s`, both of type `ty`, with everything selected.
pub fn update_all_value(
    schema: &Schema,
    ty: &TypeRef,
    t: Value,
    s: Value,
    options: &UpdateOptions,
) -> (r: Value)
    requires
        schema.wf(),
        schema.type_ok(*ty, true),
        conforms_view(schema, t@, *ty),
        conforms_view(schema, s@, *ty),
    ensures
        r@ == update_all_view(schema, *ty, t@, s@, *options),
        conforms_view(schema, r@, *ty),
    decreases t, *ty,
{
    broadcast use {group_value_views, group_mask_views};

    match ty {
        TypeRef::List(_) => merge_value(schema, ty, t, s, options),
        TypeRef::Message(i) => {
            let info = &schema.types[*i];
            match info.message_type {
                MessageType::Struct => match (t, s) {
                    (Value::Record(tf), Value::Record(sf)) => {
                        let mut tf = tf;
                        let mut sf = sf;
                        let ghost t0 = tf@;
                        let ghost s0 = sf@;
                        let n = info.fields.len();
                        let mut out: Vec<Value> = Vec::new();
                        let mut j: usize = 0;
                        assert(decreases_to!(t => t->Record_0));
                        assert(decreases_to!(t->Record_0 => t0));
                        while j < n
                            invariant
                                schema.wf(),
                                schema.is_struct(*i as int),
                                *ty == TypeRef::Message(*i),
                                info == schema.types@[*i as int],
                                n == schema.arity(*i as int),
                                n == tf.len(),
                                n == sf.len(),
                                t0.len() == n,
                                s0.len() == n,
                                t@ == ValueView::Record(views_of(t0)),
                                s@ == ValueView::Record(views_of(s0)),
                                conforms_view(schema, t@, *ty),
                                conforms_view(schema, s@, *ty),
                                decreases_to!(t => t0),
                                j <= n,
                                out.len() == j,
                                forall|k: int| j <= k < n ==> (#[trigger] tf@[k]) == t0[k],
                                forall|k: int| j <= k < n ==> (#[trigger] sf@[k]) == s0[k],
                                forall|k: int|
                                    0 <= k < j ==> (#[trigger] out@[k])@ == update_all_view(
                                        schema,
                                        schema.field(*i as int, k).ty,
                                        t0[k]@,
                                        s0[k]@,
                                        *options,
                                    ),
                                forall|k: int|
                                    0 <= k < j ==> conforms_view(
                                        schema,
                                        (#[trigger] out@[k])@,
                                        schema.field(*i as int, k).ty,
                                    ),
                            decreases n - j,
                        {
                            assert(schema.info_ok(*i as int));
                            assert(schema.field_ok(*i as int, j as int));
                            let mut x = Value::Bool(false);
                            let mut y = Value::Bool(false);
                            std::mem::swap(&mut x, &mut tf[j]);
                            std::mem::swap(&mut y, &mut sf[j]);
                            assert(x == t0[j as int]);
                            assert(y == s0[j as int]);
                            assert(decreases_to!(t0 => t0[j as int]));
                            assert(t@->Record_0[j as int] == x@);
                            assert(s@->Record_0[j as int] == y@);
                            let u = update_all_value(schema, &info.fields[j].ty, x, y, options);
                            out.push(u);
                            j += 1;
                        }
                        let r = Value::Record(out);
                        proof {
                            let e = update_all_view(schema, *ty, t@, s@, *options);
                            assert(r@->Record_0.len() == e->Record_0.len());
                            assert forall|k: int| 0 <= k < n implies r@->Record_0[k]
                                == e->Record_0[k] by {
                                assert(r@->Record_0[k] == out@[k]@);
                                assert(t@->Record_0[k] == t0[k]@);
                                assert(s@->Record_0[k] == s0[k]@);
                            }
                            assert(r@->Record_0 =~= e->Record_0);
                            assert forall|k: int| 0 <= k < n implies conforms_view(
                                schema,
                                #[trigger] r@->Record_0[k],
                                schema.field(*i as int, k).ty,
                            ) by {
                                assert(r@->Record_0[k] == out@[k]@);
                            }
                        }
                        r
                    },
                    (t, _) => t,
                },
                _ => s,
            }
        },
        TypeRef::Optional(inner) => match (t, s) {
            (Value::Optional(to), Value::Optional(so)) => {
                assert(schema.type_ok(**inner, false));
                match &**inner {
                    TypeRef::Optional(_) => {
                        assert(schema.type_ok(**inner, true));
                        let source = match so {
                            Some(y) => {
                                assert(conforms_view(schema, (*y)@, **inner));
                                *y
                            },
                            None => Value::Optional(None),
                        };
                        match to {
                            Some(x) => {
                                assert(conforms_view(schema, (*x)@, **inner));
                                Value::Optional(
                                    Some(
                                        Box::new(
                                            update_all_value(
                                                schema,
                                                &**inner,
                                                *x,
                                                source,
                                                options,
                                            ),
                                        ),
                                    ),
                                )
                            },
                            None => {
                                let r = filled_value(schema, &**inner, source, options);
                                let present = match &r {
                                    Value::Optional(Some(_)) => true,
                                    _ => false,
                                };
                                if present {
                                    Value::Optional(Some(Box::new(r)))
                                } else {
                                    Value::Optional(None)
                                }
                            },
                        }
                    },
                    TypeRef::Message(i) => {
                        let info = &schema.types[*i];
                        match info.message_type {
                            MessageType::UnitEnum => Value::Optional(so),
                            MessageType::Struct => {
                                assert(schema.type_ok(**inner, true));
                                update_all_present(schema, &**inner, to, so, options)
                            },
                            MessageType::TupleEnum => match so {
                                Some(y) => {
                                    assert(conforms_view(schema, (*y)@, **inner));
                                    match *y {
                                        Value::Variant(ks, ps) => {
                                            assert(schema.info_ok(*i as int));
                                            assert(schema.field_ok(*i as int, ks as int));
                                            let payload_ty = &info.fields[ks].ty;
                                            proof {
                                                lemma_type_ok_weakens(schema, *payload_ty);
                                            }
                                            let all = full_node(schema, payload_ty);
                                            let payload = match to {
                                                Some(x) => {
                                                    assert(conforms_view(schema, (*x)@, **inner));
                                                    match *x {
                                                        Value::Variant(kt, pt) => {
                                                            if kt == ks {
                                                                update_all_value(
                                                                    schema,
                                                                    payload_ty,
                                                                    *pt,
                                                                    *ps,
                                                                    options,
                                                                )
                                                            } else {
                                                                project_value(
                                                                    schema,
                                                                    payload_ty,
                                                                    *ps,
                                                                    &all,
                                                                    false,
                                                                )
                                                            }
                                                        },
                                                        _ => project_value(
                                                            schema,
                                                            payload_ty,
                                                            *ps,
                                                            &all,
                                                            false,
                                                        ),
                                                    }
                                                },
                                                None => project_value(
                                                    schema,
                                                    payload_ty,
                                                    *ps,
                                                    &all,
                                                    false,
                                                ),
                                            };
                                            let held = Value::Variant(ks, Box::new(payload));
                                            assert(conforms_view(schema, held@, **inner));
                                            Value::Optional(Some(Box::new(held)))
                                        },
                                        _ => Value::Optional(to),
                                    }
                                },
                                None => match to {
                                    Some(x) => {
                                        assert(conforms_view(schema, (*x)@, **inner));
                                        match *x {
                                            Value::Variant(kt, pt) => {
                                                assert(schema.info_ok(*i as int));
                                                assert(schema.field_ok(*i as int, kt as int));
                                                let payload_ty = &info.fields[kt].ty;
                                                let source = schema.default_of(payload_ty);
                                                let payload = update_all_value(
                                                    schema,
                                                    payload_ty,
                                                    *pt,
                                                    source,
                                                    options,
                                                );
                                                let held = Value::Variant(kt, Box::new(payload));
                                                assert(conforms_view(schema, held@, **inner));
                                                Value::Optional(Some(Box::new(held)))
                                            },
                                            other => Value::Optional(Some(Box::new(other))),
                                        }
                                    },
                                    None => Value::Optional(None),
                                },
                            },
                        }
                    },
                    _ => {
                        assert(schema.type_ok(**inner, true));
                        update_all_present(schema, &**inner, to, so, options)
                    },
                }
            },
            (t, _) => t,
        },
        _ => s,
    }
}

/// Updates an optional record or leaf with everything selected: `inner`
/// is the type that the optional wraps, `to` and `so` are what the target
/// and the source hold.
fn update_all_present(
    schema: &Schema,
    inner: &TypeRef,
    to: Option<Box<Value>>,
    so: Option<Box<Value>>,
    options: &UpdateOptions,
) -> (r: Value)
    requires
        schema.wf(),
        schema.type_ok(*inner, true),
        !(*inner is Optional),
        *inner is Message ==> schema.is_struct(inner->Message_0 as int),
        conforms_view(schema, Value::Optional(to)@, TypeRef::Optional(Box::new(*inner))),
        conforms_view(schema, Value::Optional(so)@, TypeRef::Optional(Box::new(*inner))),
    ensures
        r@ == update_all_view(
            schema,
            TypeRef::Optional(Box::new(*inner)),
            Value::Optional(to)@,
            Value::Optional(so)@,
            *options,
        ),
        conforms_view(schema, r@, TypeRef::Optional(Box::new(*inner))),
    decreases Value::Optional(to), *inner,
{
    match (to, so) {
        (None, None) => Value::Optional(None),
        (Some(x), Some(y)) => {
            assert(conforms_view(schema, (*x)@, *inner));
            assert(conforms_view(schema, (*y)@, *inner));
            Value::Optional(Some(Box::new(update_all_value(schema, inner, *x, *y, options))))
        },
        (Some(x), None) => {
            assert(conforms_view(schema, (*x)@, *inner));
            let y = schema.default_of(inner);
            Value::Optional(Some(Box::new(update_all_value(schema, inner, *x, y, options))))
        },
        (None, Some(y)) => {
            assert(conforms_view(schema, (*y)@, *inner));
            Value::Optional(Some(Box::new(filled_value(schema, inner, *y, options))))
        },
    }
}

/// Updates `t` from `s`, both of type `ty`, as a field of its parent, by
/// the mask `m`.
pub fn update_value(
    schema: &Schema,
    ty: &TypeRef,
    t: Value,
    s: Value,
    m: &MaskNode,
    options: &UpdateOptions,
) -> (r: Value)
    requires
        schema.wf(),
        schema.type_ok(*ty, true),
        conforms_view(schema, t@, *ty),
        conforms_view(schema, s@, *ty),
        fits(schema, *ty, m@),
    ensures
        r@ == update_view(schema, *ty, t@, s@, m@, *options),
        conforms_view(schema, r@, *ty),
    decreases *m, *ty, 0int,
{
    broadcast use {group_value_views, group_mask_views};

    if m.whole {
        return update_all_value(schema, ty, t, s, options);
    }
    match ty {
        TypeRef::List(_) => merge_value(schema, ty, t, s, options),
        TypeRef::Message(i) => {
            let info = &schema.types[*i];
            match info.message_type {
                MessageType::Struct => match (t, s) {
                    (Value::Record(tf), Value::Record(sf)) => {
                        if node_is_empty(schema, ty, m) {
                            return merge_value(
                                schema,
                                ty,
                                Value::Record(tf),
                                Value::Record(sf),
                                options,
                            );
                        }
                        let mut tf = tf;
                        let mut sf = sf;
                        let ghost t0 = tf@;
                        let ghost s0 = sf@;
                        let n = info.fields.len();
                        let mut out: Vec<Value> = Vec::new();
                        let mut j: usize = 0;
                        assert(decreases_to!(*m => m.slots));
                        assert(decreases_to!(m.slots => m.slots@));
                        while j < n
                            invariant
                                schema.wf(),
                                schema.is_struct(*i as int),
                                *ty == TypeRef::Message(*i),
                                info == schema.types@[*i as int],
                                n == schema.arity(*i as int),
                                n == tf.len(),
                                n == sf.len(),
                                n == m.slots.len(),
                                t0.len() == n,
                                s0.len() == n,
                                t@ == ValueView::Record(views_of(t0)),
                                s@ == ValueView::Record(views_of(s0)),
                                conforms_view(schema, t@, *ty),
                                conforms_view(schema, s@, *ty),
                                fits(schema, *ty, m@),
                                m@ != empty_mask(schema, *ty),
                                decreases_to!(*m => m.slots@),
                                j <= n,
                                out.len() == j,
                                forall|k: int| j <= k < n ==> (#[trigger] tf@[k]) == t0[k],
                                forall|k: int| j <= k < n ==> (#[trigger] sf@[k]) == s0[k],
                                forall|k: int|
                                    0 <= k < j ==> (#[trigger] out@[k])@ == field_update(
                                        schema,
                                        schema.field(*i as int, k),
                                        t0[k]@,
                                        s0[k]@,
                                        m@.slots[k],
                                        *options,
                                    ),
                                forall|k: int|
                                    0 <= k < j ==> conforms_view(
                                        schema,
                                        (#[trigger] out@[k])@,
                                        schema.field(*i as int, k).ty,
                                    ),
                            decreases n - j,
                        {
                            assert(schema.info_ok(*i as int));
                            assert(schema.field_ok(*i as int, j as int));
                            let mut x = Value::Bool(false);
                            let mut y = Value::Bool(false);
                            std::mem::swap(&mut x, &mut tf[j]);
                            std::mem::swap(&mut y, &mut sf[j]);
                            assert(x == t0[j as int]);
                            assert(y == s0[j as int]);
                            assert(t@->Record_0[j as int] == x@);
                            assert(s@->Record_0[j as int] == y@);
                            assert(m@.slots[j as int] == slot_view(m.slots@[j as int]));
                            let field = &info.fields[j];
                            let u = match &m.slots[j] {
                                Some(child) => {
                                    assert(decreases_to!(m.slots@ => m.slots@[j as int]));
                                    assert(decreases_to!(m.slots@[j as int] => m.slots@[j as int]->0));
                                    update_value(schema, &field.ty, x, y, child, options)
                                },
                                None => x,
                            };
                            out.push(u);
                            j += 1;
                        }
                        let r = Value::Record(out);
                        proof {
                            let e = update_view(schema, *ty, t@, s@, m@, *options);
                            assert(r@->Record_0.len() == e->Record_0.len());
                            assert forall|k: int| 0 <= k < n implies r@->Record_0[k]
                                == e->Record_0[k] by {
                                assert(r@->Record_0[k] == out@[k]@);
                                assert(t@->Record_0[k] == t0[k]@);
                                assert(s@->Record_0[k] == s0[k]@);
                            }
                            assert(r@->Record_0 =~= e->Record_0);
                            assert forall|k: int| 0 <= k < n implies conforms_view(
                                schema,
                                #[trigger] r@->Record_0[k],
                                schema.field(*i as int, k).ty,
                            ) by {
                                assert(r@->Record_0[k] == out@[k]@);
                            }
                        }
                        r
                    },
                    (t, _) => t,
                },
                _ => s,
            }
        },
        TypeRef::Optional(inner) => match (t, s) {
            (Value::Optional(to), Value::Optional(so)) => {
                proof {
                    lemma_optional_mask(schema, **inner, m@);
                }
                assert(schema.type_ok(**inner, false));
                match &**inner {
                    TypeRef::Optional(_) => {
                        assert(schema.type_ok(**inner, true));
                        let source = match so {
                            Some(y) => *y,
                            None => Value::Optional(None),
                        };
                        match to {
                            Some(x) => Value::Optional(
                                Some(
                                    Box::new(
                                        update_value(schema, &**inner, *x, source, m, options),
                                    ),
                                ),
                            ),
                            None => {
                                let r = update_value(
                                    schema,
                                    &**inner,
                                    Value::Optional(None),
                                    source,
                                    m,
                                    options,
                                );
                                let present = match &r {
                                    Value::Optional(Some(_)) => true,
                                    _ => false,
                                };
                                if present {
                                    Value::Optional(Some(Box::new(r)))
                                } else {
                                    Value::Optional(None)
                                }
                            },
                        }
                    },
                    TypeRef::Message(i) => {
                        let info = &schema.types[*i];
                        match info.message_type {
                            MessageType::UnitEnum => Value::Optional(so),
                            MessageType::Struct => update_present(
                                schema,
                                &**inner,
                                to,
                                so,
                                m,
                                options,
                            ),
                            MessageType::TupleEnum => update_union(
                                schema,
                                &**inner,
                                *i,
                                to,
                                so,
                                m,
                                options,
                            ),
                        }
                    },
                    _ => update_present(schema, &**inner, to, so, m, options),
                }
            },
            (t, _) => t,
        },
        _ => s,
    }
}

/// Updates an optional record or leaf: `inner` is the type that the
/// optional wraps, `to` and `so` are what the target and the source hold.
fn update_present(
    schema: &Schema,
    inner: &TypeRef,
    to: Option<Box<Value>>,
    so: Option<Box<Value>>,
    m: &MaskNode,
    options: &UpdateOptions,
) -> (r: Value)
    requires
        schema.wf(),
        schema.type_ok(*inner, false),
        !(*inner is Optional),
        *inner is Message ==> schema.is_struct(inner->Message_0 as int),
        conforms_view(schema, Value::Optional(to)@, TypeRef::Optional(Box::new(*inner))),
        conforms_view(schema, Value::Optional(so)@, TypeRef::Optional(Box::new(*inner))),
        fits(schema, *inner, m@),
        !m@.whole,
    ensures
        r@ == update_view(
            schema,
            TypeRef::Optional(Box::new(*inner)),
            Value::Optional(to)@,
            Value::Optional(so)@,
            m@,
            *options,
        ),
        conforms_view(schema, r@, TypeRef::Optional(Box::new(*inner))),
    decreases *m, *inner, 1int,
{
    assert(schema.type_ok(*inner, true));
    match (to, so) {
        (None, None) => Value::Optional(None),
        (Some(x), Some(y)) => {
            assert(conforms_view(schema, (*x)@, *inner));
            assert(conforms_view(schema, (*y)@, *inner));
            Value::Optional(Some(Box::new(update_value(schema, inner, *x, *y, m, options))))
        },
        (Some(x), None) => {
            assert(conforms_view(schema, (*x)@, *inner));
            let y = schema.default_of(inner);
            Value::Optional(Some(Box::new(update_value(schema, inner, *x, y, m, options))))
        },
        (None, Some(y)) => {
            assert(conforms_view(schema, (*y)@, *inner));
            let x = schema.default_of(inner);
            Value::Optional(Some(Box::new(update_value(schema, inner, x, *y, m, options))))
        },
    }
}

/// Updates an optional union: `i` is the registry index of the union,
/// `to` and `so` are what the target and the source hold.
fn update_union(
    schema: &Schema,
    inner: &TypeRef,
    i: usize,
    to: Option<Box<Value>>,
    so: Option<Box<Value>>,
    m: &MaskNode,
    options: &UpdateOptions,
) -> (r: Value)
    requires
        schema.wf(),
        *inner == TypeRef::Message(i),
        schema.is_union(i as int),
        conforms_view(schema, Value::Optional(to)@, TypeRef::Optional(Box::new(*inner))),
        conforms_view(schema, Value::Optional(so)@, TypeRef::Optional(Box::new(*inner))),
        fits(schema, *inner, m@),
        !m@.whole,
    ensures
        r@ == update_view(
            schema,
            TypeRef::Optional(Box::new(*inner)),
            Value::Optional(to)@,
            Value::Optional(so)@,
            m@,
            *options,
        ),
        conforms_view(schema, r@, TypeRef::Optional(Box::new(*inner))),
    decreases *m, *inner, 1int,
{
    broadcast use {group_value_views, group_mask_views};

    let ghost ty = TypeRef::Optional(Box::new(*inner));
    proof {
        lemma_optional_mask(schema, *inner, m@);
        assert(schema.info_ok(i as int));
    }
    assert(schema.type_ok(*inner, false));
    assert(schema.type_ok(ty, true));
    let optional = TypeRef::Optional(Box::new(TypeRef::Message(i)));
    if node_is_empty(schema, inner, m) {
        return merge_value(schema, &optional, Value::Optional(to), Value::Optional(so), options);
    }
    let info = &schema.types[i];
    assert(decreases_to!(*m => m.slots));
    assert(decreases_to!(m.slots => m.slots@));
    match so {
        Some(y) => {
            assert(conforms_view(schema, (*y)@, *inner));
            match *y {
                Value::Variant(ks, ps) => {
                    assert(schema.field_ok(i as int, ks as int));
                    assert(m@.slots[ks as int] == slot_view(m.slots@[ks as int]));
                    match &m.slots[ks] {
                        Some(child) => {
                            assert(decreases_to!(m.slots@ => m.slots@[ks as int]));
                            assert(decreases_to!(m.slots@[ks as int] => m.slots@[ks as int]->0));
                            let payload_ty = &info.fields[ks].ty;
                            let payload = match to {
                                Some(x) => {
                                    assert(conforms_view(schema, (*x)@, *inner));
                                    match *x {
                                        Value::Variant(kt, pt) => {
                                            if kt == ks {
                                                update_value(
                                                    schema,
                                                    payload_ty,
                                                    *pt,
                                                    *ps,
                                                    child,
                                                    options,
                                                )
                                            } else {
                                                project_value(schema, payload_ty, *ps, child, false)
                                            }
                                        },
                                        _ => project_value(schema, payload_ty, *ps, child, false),
                                    }
                                },
                                None => project_value(schema, payload_ty, *ps, child, false),
                            };
                            let held = Value::Variant(ks, Box::new(payload));
                            assert(conforms_view(schema, held@, *inner));
                            return Value::Optional(Some(Box::new(held)));
                        },
                        None => {},
                    }
                },
                _ => {},
            }
        },
        None => {},
    }
    match to {
        Some(x) => {
            assert(conforms_view(schema, (*x)@, *inner));
            match *x {
                Value::Variant(kt, pt) => {
                    assert(schema.field_ok(i as int, kt as int));
                    assert(m@.slots[kt as int] == slot_view(m.slots@[kt as int]));
                    match &m.slots[kt] {
                        Some(child) => {
                            assert(decreases_to!(m.slots@ => m.slots@[kt as int]));
                            assert(decreases_to!(m.slots@[kt as int] => m.slots@[kt as int]->0));
                            let payload_ty = &info.fields[kt].ty;
                            let source = schema.default_of(payload_ty);
                            let payload = update_value(
                                schema,
                                payload_ty,
                                *pt,
                                source,
                                child,
                                options,
                            );
                            let held = Value::Variant(kt, Box::new(payload));
                            assert(conforms_view(schema, held@, *inner));
                            Value::Optional(Some(Box::new(held)))
                        },
                        None => Value::Optional(Some(Box::new(Value::Variant(kt, pt)))),
                    }
                },
                other => Value::Optional(Some(Box::new(other))),
            }
        },
        None => Value::Optional(None),
    }
}

} // verus!
