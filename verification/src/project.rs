//! Projection: keeping what a mask selects and resetting the rest.

use vstd::prelude::*;
use crate::node::{
    empty_mask, empty_node, fits, full_node, group_mask_views, lemma_optional_mask,
    lemma_type_ok_weakens, node_is_empty, slot_at, slot_view, MaskNode, MaskView,
};
use crate::schema::{MessageField, MessageType, Schema, TypeRef};
use crate::typing::{conforms_view, default_view};
use crate::value::{group_value_views, no_value, views_of, Value, ValueView};

verus! {

/// The value `v` of type `ty` projected by the mask `m`.
///
/// Under the mask that selects nothing and without `normalize`, every
/// value is kept as it is. Otherwise: a leaf is kept. A record under the
/// mask that selects nothing has each of its fields normalised; under
/// another mask each field is projected by its slot, or reset to its
/// default where the slot is absent or, for a flattened field, selects
/// nothing. An absent optional stays absent. A present optional record is
/// projected and becomes absent when the result is the default. A present
/// union under the mask that selects nothing has its payload normalised;
/// under another mask it is kept, with its payload projected, when the
/// slot of the variant it holds is present, and becomes absent when that
/// slot is absent. With `normalize`, an optional leaf that holds the
/// default becomes absent (an optional tag only where its enumeration asks
/// for it).
pub open spec fn project_view(
    schema: &Schema,
    ty: TypeRef,
    v: ValueView,
    m: MaskView,
    normalize: bool,
) -> ValueView
    decreases v,
{
    match ty {
        TypeRef::Message(i) => if schema.is_struct(i as int) && v is Record {
            let fields = v->Record_0;
            if m == empty_mask(schema, ty) {
                if normalize {
                    ValueView::Record(
                        Seq::new(
                            fields.len(),
                            |j: int|
                                if 0 <= j < fields.len() && j < schema.arity(i as int) {
                                    project_view(
                                        schema,
                                        schema.field(i as int, j).ty,
                                        fields[j],
                                        empty_mask(schema, schema.field(i as int, j).ty),
                                        normalize,
                                    )
                                } else {
                                    no_value()
                                },
                        ),
                    )
                } else {
                    v
                }
            } else {
                ValueView::Record(
                    Seq::new(
                        fields.len(),
                        |j: int|
                            if 0 <= j < fields.len() && j < schema.arity(i as int) {
                                let f = schema.field(i as int, j);
                                match slot_at(schema, ty, m, j) {
                                    Some(child) => if f.is_flatten && child == empty_mask(
                                        schema,
                                        f.ty,
                                    ) {
                                        default_view(schema, f.ty)
                                    } else {
                                        project_view(schema, f.ty, fields[j], child, normalize)
                                    },
                                    None => default_view(schema, f.ty),
                                }
                            } else {
                                no_value()
                            },
                    ),
                )
            }
        } else {
            v
        },
        TypeRef::Optional(inner) => if v is Optional && v->Optional_0 is Some {
            let x = *v->Optional_0->0;
            match *inner {
                TypeRef::Optional(_) => ValueView::Optional(
                    Some(Box::new(project_view(schema, *inner, x, m, normalize))),
                ),
                TypeRef::Message(i) => if schema.is_struct(i as int) {
                    if m == empty_mask(schema, ty) && !normalize {
                        v
                    } else {
                        let p = project_view(schema, *inner, x, m, normalize);
                        if p == default_view(schema, *inner) {
                            ValueView::Optional(None)
                        } else {
                            ValueView::Optional(Some(Box::new(p)))
                        }
                    }
                } else if schema.is_union(i as int) {
                    if x is Variant && x->Variant_0 < schema.arity(i as int) {
                        let k = x->Variant_0;
                        let payload_ty = schema.field(i as int, k as int).ty;
                        if m == empty_mask(schema, ty) {
                            if normalize {
                                ValueView::Optional(
                                    Some(
                                        Box::new(
                                            ValueView::Variant(
                                                k,
                                                Box::new(
                                                    project_view(
                                                        schema,
                                                        payload_ty,
                                                        *x->Variant_1,
                                                        empty_mask(schema, payload_ty),
                                                        normalize,
                                                    ),
                                                ),
                                            ),
                                        ),
                                    ),
                                )
                            } else {
                                v
                            }
                        } else if slot_at(schema, ty, m, k as int) is Some {
                            ValueView::Optional(
                                Some(
                                    Box::new(
                                        ValueView::Variant(
                                            k,
                                            Box::new(
                                                project_view(
                                                    schema,
                                                    payload_ty,
                                                    *x->Variant_1,
                                                    slot_at(schema, ty, m, k as int)->0,
                                                    normalize,
                                                ),
                                            ),
                                        ),
                                    ),
                                ),
                            )
                        } else {
                            ValueView::Optional(None)
                        }
                    } else {
                        v
                    }
                } else if schema.is_enumeration(i as int) {
                    if normalize && schema.types@[i as int].normalize_some_default && x
                        == default_view(schema, *inner) {
                        ValueView::Optional(None)
                    } else {
                        v
                    }
                } else {
                    v
                },
                _ => if normalize && x == default_view(schema, *inner) {
                    ValueView::Optional(None)
                } else {
                    v
                },
            }
        } else {
            v
        },
        _ => v,
    }
}

/// What projection makes of the value `x` of the field `f` of a record:
/// `kept` says that the mask of the record selects nothing, `slot` is the
/// slot of the field.
pub open spec fn field_projection(
    schema: &Schema,
    f: MessageField,
    x: ValueView,
    kept: bool,
    slot: Option<MaskView>,
    normalize: bool,
) -> ValueView {
    if kept {
        project_view(schema, f.ty, x, empty_mask(schema, f.ty), normalize)
    } else {
        match slot {
            Some(child) => if f.is_flatten && child == empty_mask(schema, f.ty) {
                default_view(schema, f.ty)
            } else {
                project_view(schema, f.ty, x, child, normalize)
            },
            None => default_view(schema, f.ty),
        }
    }
}

/// Projects `v`, of type `ty`, by the mask `m`.
pub fn project_value(schema: &Schema, ty: &TypeRef, v: Value, m: &MaskNode, normalize: bool) -> (r:
    Value)
    requires
        schema.wf(),
        schema.type_ok(*ty, true),
        conforms_view(schema, v@, *ty),
        fits(schema, *ty, m@),
    ensures
        r@ == project_view(schema, *ty, v@, m@, normalize),
        conforms_view(schema, r@, *ty),
    decreases v,
{
    broadcast use {group_value_views, group_mask_views};

    match ty {
        TypeRef::Message(i) => {
            let info = &schema.types[*i];
            match info.message_type {
                MessageType::Struct => match v {
                    Value::Record(fields) => {
                        let kept = node_is_empty(schema, ty, m);
                        if kept && !normalize {
                            return Value::Record(fields);
                        }
                        let mut fields = fields;
                        let ghost f0 = fields@;
                        let n = info.fields.len();
                        let mut out: Vec<Value> = Vec::new();
                        let mut j: usize = 0;
                        assert(decreases_to!(v => fields));
                        assert(decreases_to!(fields => fields@));
                        while j < n
                            invariant
                                schema.wf(),
                                schema.is_struct(*i as int),
                                *ty == TypeRef::Message(*i),
                                info == schema.types@[*i as int],
                                n == schema.arity(*i as int),
                                n == fields.len(),
                                !m.whole ==> n == m.slots.len(),
                                f0.len() == n,
                                v@ == ValueView::Record(views_of(f0)),
                                conforms_view(schema, v@, *ty),
                                fits(schema, *ty, m@),
                                kept == (m@ == empty_mask(schema, *ty)),
                                decreases_to!(v => f0),
                                j <= n,
                                out.len() == j,
                                forall|k: int| j <= k < n ==> (#[trigger] fields@[k]) == f0[k],
                                forall|k: int|
                                    0 <= k < j ==> (#[trigger] out@[k])@ == field_projection(
                                        schema,
                                        schema.field(*i as int, k),
                                        f0[k]@,
                                        kept,
                                        slot_at(schema, *ty, m@, k),
                                        normalize,
                                    ),
                                forall|k: int|
                                    0 <= k < j ==> conforms_view(
                                        schema,
                                        (#[trigger] out@[k])@,
                                        schema.field(*i as int, k).ty,
                                    ),
                            decreases n - j,
                        {
                            assert(schema.info_ok(*i as int));
                            assert(schema.field_ok(*i as int, j as int));
                            let mut x = Value::Bool(false);
                            std::mem::swap(&mut x, &mut fields[j]);
                            assert(x == f0[j as int]);
                            assert(decreases_to!(f0 => f0[j as int]));
                            assert(v@->Record_0[j as int] == x@);
                            let field = &info.fields[j];
                            proof {
                                lemma_type_ok_weakens(schema, field.ty);
                            }
                            let all = full_node(schema, &field.ty);
                            let slot: Option<&MaskNode> = if m.whole {
                                Some(&all)
                            } else {
                                assert(m@.slots[j as int] == slot_view(m.slots@[j as int]));
                                match &m.slots[j] {
                                    Some(child) => Some(child),
                                    None => None,
                                }
                            };
                            assert(match slot {
                                Some(child) => slot_at(schema, *ty, m@, j as int) == Some(child@),
                                None => slot_at(schema, *ty, m@, j as int) is None,
                            });
                            let p = if kept {
                                let e = empty_node(schema, &field.ty);
                                project_value(schema, &field.ty, x, &e, normalize)
                            } else {
                                match slot {
                                    Some(child) => {
                                        if field.is_flatten && node_is_empty(
                                            schema,
                                            &field.ty,
                                            child,
                                        ) {
                                            schema.default_of(&field.ty)
                                        } else {
                                            project_value(schema, &field.ty, x, child, normalize)
                                        }
                                    },
                                    None => schema.default_of(&field.ty),
                                }
                            };
                            out.push(p);
                            j += 1;
                        }
                        let r = Value::Record(out);
                        proof {
                            let e = project_view(schema, *ty, v@, m@, normalize);
                            assert(r@->Record_0.len() == e->Record_0.len());
                            assert forall|k: int| 0 <= k < n implies r@->Record_0[k]
                                == e->Record_0[k] by {
                                assert(r@->Record_0[k] == out@[k]@);
                                assert(v@->Record_0[k] == f0[k]@);
                            }
                            assert(r@->Record_0 =~= e->Record_0);
                            assert forall|k: int| 0 <= k < n implies conforms_view(
                                schema,
                                #[trigger] r@->Record_0[k],
                                schema.field(*i as int, k).ty,
                            ) by {
                                assert(r@->Record_0[k] == out@[k]@);
                            }
                        }
                        r
                    },
                    other => other,
                },
                _ => v,
            }
        },
        TypeRef::Optional(inner) => match v {
            Value::Optional(Some(x)) => {
                proof {
                    lemma_optional_mask(schema, **inner, m@);
                }
                assert(schema.type_ok(**inner, false));
                assert(conforms_view(schema, (*x)@, **inner));
                match &**inner {
                    TypeRef::Optional(_) => {
                        assert(schema.type_ok(**inner, true));
                        Value::Optional(
                            Some(Box::new(project_value(schema, &**inner, *x, m, normalize))),
                        )
                    },
                    TypeRef::Message(i) => {
                        let info = &schema.types[*i];
                        match info.message_type {
                            MessageType::Struct => {
                                if !normalize && node_is_empty(schema, ty, m) {
                                    return Value::Optional(Some(x));
                                }
                                let p = project_value(schema, &**inner, *x, m, normalize);
                                if schema.is_default(&p, &**inner) {
                                    Value::Optional(None)
                                } else {
                                    Value::Optional(Some(Box::new(p)))
                                }
                            },
                            MessageType::UnitEnum => {
                                if normalize && info.normalize_some_default && schema.is_default(
                                    &*x,
                                    &**inner,
                                ) {
                                    Value::Optional(None)
                                } else {
                                    Value::Optional(Some(x))
                                }
                            },
                            MessageType::TupleEnum => match *x {
                                Value::Variant(k, payload) => {
                                    assert(schema.info_ok(*i as int));
                                    assert(schema.field_ok(*i as int, k as int));
                                    let payload_ty = &info.fields[k].ty;
                                    proof {
                                        lemma_type_ok_weakens(schema, *payload_ty);
                                    }
                                    let all = full_node(schema, payload_ty);
                                    let slot: Option<&MaskNode> = if m.whole {
                                        Some(&all)
                                    } else {
                                        assert(m@.slots[k as int] == slot_view(
                                            m.slots@[k as int],
                                        ));
                                        match &m.slots[k] {
                                            Some(child) => Some(child),
                                            None => None,
                                        }
                                    };
                                    assert(match slot {
                                        Some(child) => slot_at(schema, *ty, m@, k as int) == Some(
                                            child@,
                                        ),
                                        None => slot_at(schema, *ty, m@, k as int) is None,
                                    });
                                    if node_is_empty(schema, ty, m) {
                                        if normalize {
                                            let e = empty_node(schema, payload_ty);
                                            let p = project_value(
                                                schema,
                                                payload_ty,
                                                *payload,
                                                &e,
                                                normalize,
                                            );
                                            let held = Value::Variant(k, Box::new(p));
                                            assert(conforms_view(schema, held@, **inner));
                                            Value::Optional(Some(Box::new(held)))
                                        } else {
                                            Value::Optional(
                                                Some(Box::new(Value::Variant(k, payload))),
                                            )
                                        }
                                    } else {
                                        match slot {
                                            Some(child) => {
                                                let p = project_value(
                                                    schema,
                                                    payload_ty,
                                                    *payload,
                                                    child,
                                                    normalize,
                                                );
                                                let held = Value::Variant(k, Box::new(p));
                                                assert(conforms_view(schema, held@, **inner));
                                                Value::Optional(Some(Box::new(held)))
                                            },
                                            None => Value::Optional(None),
                                        }
                                    }
                                },
                                other => Value::Optional(Some(Box::new(other))),
                            },
                        }
                    },
                    _ => {
                        if normalize && schema.is_default(&*x, &**inner) {
                            Value::Optional(None)
                        } else {
                            Value::Optional(Some(x))
                        }
                    },
                }
            },
            other => other,
        },
        _ => v,
    }
}

} // verus!
