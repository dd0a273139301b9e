//! Merging: combining two values of one type without a mask.

use vstd::prelude::*;
use crate::options::UpdateOptions;
use crate::schema::{MessageType, Schema, TypeRef};
use crate::typing::{conforms_view, default_view};
use crate::value::{group_value_views, no_value, Value, ValueView};

verus! {

/// The target `t` of type `ty` after the source `s` is merged into it.
///
/// A scalar or a tag is overwritten unless the source is the default; a
/// text, a byte buffer or a map unless the source is empty. A repeated
/// field is replaced or appended to, by `replace_repeated`. A record is
/// replaced when `replace_message` is set, else merged field by field. An
/// absent source changes nothing; a present source replaces an absent
/// target. Where both are present the payloads are merged, except that a
/// union takes the source unless both hold the same variant, whose payloads
/// are then merged.
pub open spec fn merge_view(
    schema: &Schema,
    ty: TypeRef,
    t: ValueView,
    s: ValueView,
    options: UpdateOptions,
) -> ValueView
    decreases t,
{
    match ty {
        TypeRef::Scalar(_) => if s != default_view(schema, ty) {
            s
        } else {
            t
        },
        TypeRef::Text => if s is Text && s->Text_0.len() > 0 {
            s
        } else {
            t
        },
        TypeRef::Bytes => if s is Bytes && s->Bytes_0.len() > 0 {
            s
        } else {
            t
        },
        TypeRef::Mapping(_, _) => if s is Mapping && s->Mapping_0.len() > 0 {
            s
        } else {
            t
        },
        TypeRef::List(_) => if options.replace_repeated {
            s
        } else if t is List && s is List {
            ValueView::List(t->List_0 + s->List_0)
        } else {
            t
        },
        TypeRef::Message(i) => if schema.is_enumeration(i as int) {
            if s != default_view(schema, ty) {
                s
            } else {
                t
            }
        } else if schema.is_struct(i as int) && t is Record && s is Record {
            if options.replace_message {
                s
            } else {
                ValueView::Record(
                    Seq::new(
                        t->Record_0.len(),
                        |j: int|
                            if 0 <= j < t->Record_0.len() && j < s->Record_0.len() && j
                                < schema.arity(i as int) {
                                merge_view(
                                    schema,
                                    schema.field(i as int, j).ty,
                                    t->Record_0[j],
                                    s->Record_0[j],
                                    options,
                                )
                            } else {
                                no_value()
                            },
                    ),
                )
            }
        } else {
            t
        },
        TypeRef::Optional(inner) => if t is Optional && s is Optional {
            match (t->Optional_0, s->Optional_0) {
                (_, None) => t,
                (None, Some(_)) => s,
                (Some(x), Some(y)) => match *inner {
                    TypeRef::Message(i) if schema.is_union(i as int) => if *x is Variant && *y is Variant
                        && x->Variant_0 == y->Variant_0 && x->Variant_0 < schema.arity(i as int) {
                        ValueView::Optional(
                            Some(
                                Box::new(
                                    ValueView::Variant(
                                        x->Variant_0,
                                        Box::new(
                                            merge_view(
                                                schema,
                                                schema.field(i as int, x->Variant_0 as int).ty,
                                                *x->Variant_1,
                                                *y->Variant_1,
                                                options,
                                            ),
                                        ),
                                    ),
                                ),
                            ),
                        )
                    } else {
                        s
                    },
                    _ => ValueView::Optional(
                        Some(Box::new(merge_view(schema, *inner, *x, *y, options))),
                    ),
                },
            }
        } else {
            t
        },
    }
}

/// Merges `s` into `t`, both of type `ty`.
pub fn merge_value(schema: &Schema, ty: &TypeRef, t: Value, s: Value, options: &UpdateOptions) -> (r:
    Value)
    requires
        schema.wf(),
        schema.type_ok(*ty, true),
        conforms_view(schema, t@, *ty),
        conforms_view(schema, s@, *ty),
    ensures
        r@ == merge_view(schema, *ty, t@, s@, *options),
        conforms_view(schema, r@, *ty),
    decreases t,
{
    broadcast use group_value_views;

    match ty {
        TypeRef::Scalar(_) => if schema.is_default(&s, ty) {
            t
        } else {
            s
        },
        TypeRef::Text => {
            let keep = match &s {
                Value::Text(text) => text.as_str().is_empty(),
                _ => true,
            };
            if keep {
                t
            } else {
                s
            }
        },
        TypeRef::Bytes => {
            let keep = match &s {
                Value::Bytes(bytes) => bytes.len() == 0,
                _ => true,
            };
            if keep {
                t
            } else {
                s
            }
        },
        TypeRef::Mapping(_, _) => {
            let keep = match &s {
                Value::Mapping(entries) => entries.len() == 0,
                _ => true,
            };
            if keep {
                t
            } else {
                s
            }
        },
        TypeRef::List(elem) => if options.replace_repeated {
            s
        } else {
            match (t, s) {
                (Value::List(a), Value::List(b)) => {
                    let mut a = a;
                    let mut b = b;
                    let ghost a0 = a@;
                    let ghost b0 = b@;
                    a.append(&mut b);
                    let r = Value::List(a);
                    proof {
                        assert(r@->List_0 =~= t@->List_0 + s@->List_0);
                        assert forall|k: int| 0 <= k < r@->List_0.len() implies conforms_view(
                            schema,
                            #[trigger] r@->List_0[k],
                            **elem,
                        ) by {
                            if k < a0.len() {
                                assert(r@->List_0[k] == t@->List_0[k]);
                            } else {
                                assert(r@->List_0[k] == s@->List_0[k - a0.len()]);
                            }
                        }
                    }
                    r
                },
                (t, _) => t,
            }
        },
        TypeRef::Message(i) => {
            let info = &schema.types[*i];
            match info.message_type {
                MessageType::UnitEnum => if schema.is_default(&s, ty) {
                    t
                } else {
                    s
                },
                MessageType::TupleEnum => t,
                MessageType::Struct => match (t, s) {
                    (Value::Record(tf), Value::Record(sf)) => {
                        if options.replace_message {
                            return Value::Record(sf);
                        }
                        let mut tf = tf;
                        let mut sf = sf;
                        let ghost t0 = tf@;
                        let ghost s0 = sf@;
                        let n = info.fields.len();
                        let mut out: Vec<Value> = Vec::new();
                        let mut j: usize = 0;
                        assert(decreases_to!(t => tf));
                        assert(decreases_to!(tf => tf@));
                        while j < n
                            invariant
                                schema.wf(),
                                schema.is_struct(*i as int),
                                *ty == TypeRef::Message(*i),
                                info == schema.types@[*i as int],
                                n == schema.arity(*i as int),
                                n == tf.len(),
                                n == sf.len(),
                                t0.len() == n,
                                s0.len() == n,
                                t@ == ValueView::Record(crate::value::views_of(t0)),
                                s@ == ValueView::Record(crate::value::views_of(s0)),
                                conforms_view(schema, t@, *ty),
                                conforms_view(schema, s@, *ty),
                                decreases_to!(t => t0),
                                j <= n,
                                out.len() == j,
                                forall|k: int| j <= k < n ==> (#[trigger] tf@[k]) == t0[k],
                                forall|k: int| j <= k < n ==> (#[trigger] sf@[k]) == s0[k],
                                forall|k: int|
                                    0 <= k < j ==> (#[trigger] out@[k])@ == merge_view(
                                        schema,
                                        schema.field(*i as int, k).ty,
                                        t0[k]@,
                                        s0[k]@,
                                        *options,
                                    ),
                                forall|k: int|
                                    0 <= k < j ==> conforms_view(
                                        schema,
                                        (#[trigger] out@[k])@,
                                        schema.field(*i as int, k).ty,
                                    ),
                            decreases n - j,
                        {
                            assert(schema.info_ok(*i as int));
                            assert(schema.field_ok(*i as int, j as int));
                            let mut x = Value::Bool(false);
                            let mut y = Value::Bool(false);
                            std::mem::swap(&mut x, &mut tf[j]);
                            std::mem::swap(&mut y, &mut sf[j]);
                            assert(x == t0[j as int]);
                            assert(y == s0[j as int]);
                            assert(decreases_to!(t0 => t0[j as int]));
                            assert(t@->Record_0[j as int] == x@);
                            assert(s@->Record_0[j as int] == y@);
                            let m = merge_value(schema, &info.fields[j].ty, x, y, options);
                            out.push(m);
                            j += 1;
                        }
                        let r = Value::Record(out);
                        proof {
                            let e = merge_view(schema, *ty, t@, s@, *options);
                            assert(r@->Record_0.len() == e->Record_0.len());
                            assert forall|k: int| 0 <= k < n implies r@->Record_0[k]
                                == e->Record_0[k] by {
                                assert(r@->Record_0[k] == out@[k]@);
                                assert(t@->Record_0[k] == t0[k]@);
                                assert(s@->Record_0[k] == s0[k]@);
                            }
                            assert(r@->Record_0 =~= e->Record_0);
                            assert forall|k: int| 0 <= k < n implies conforms_view(
                                schema,
                                #[trigger] r@->Record_0[k],
                                schema.field(*i as int, k).ty,
                            ) by {
                                assert(r@->Record_0[k] == out@[k]@);
                            }
                        }
                        r
                    },
                    (t, _) => t,
                },
            }
        },
        TypeRef::Optional(inner) => match (t, s) {
            (Value::Optional(to), Value::Optional(so)) => match so {
                None => Value::Optional(to),
                Some(y) => match to {
                    None => Value::Optional(Some(y)),
                    Some(x) => {
                        assert(schema.type_ok(**inner, false));
                        assert(conforms_view(schema, (*x)@, **inner));
                        assert(conforms_view(schema, (*y)@, **inner));
                        match &**inner {
                            TypeRef::Message(i) => match schema.types[*i].message_type {
                                MessageType::UnitEnum | MessageType::Struct => Value::Optional(
                                    Some(Box::new(merge_value(schema, &**inner, *x, *y, options))),
                                ),
                                MessageType::TupleEnum => match (*x, *y) {
                                    (Value::Variant(kx, px), Value::Variant(ky, py)) => {
                                        if kx == ky {
                                            assert(schema.info_ok(*i as int));
                                            assert(schema.field_ok(*i as int, kx as int));
                                            let merged = merge_value(
                                                schema,
                                                &schema.types[*i].fields[kx].ty,
                                                *px,
                                                *py,
                                                options,
                                            );
                                            let held = Value::Variant(kx, Box::new(merged));
                                            assert(conforms_view(schema, held@, **inner));
                                            Value::Optional(Some(Box::new(held)))
                                        } else {
                                            let held = Value::Variant(ky, py);
                                            assert(conforms_view(schema, held@, **inner));
                                            Value::Optional(Some(Box::new(held)))
                                        }
                                    },
                                    (_, y) => Value::Optional(Some(Box::new(y))),
                                },
                            },
                            _ => {
                                assert(schema.type_ok(**inner, true));
                                Value::Optional(
                                    Some(Box::new(merge_value(schema, &**inner, *x, *y, options))),
                                )
                            },
                        }
                    },
                },
            },
            (t, _) => t,
        },
    }
}

} // verus!
