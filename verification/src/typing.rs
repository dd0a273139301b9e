//! Which values belong to which type, and the default value of each type.

use vstd::prelude::*;
use crate::schema::{direct_rank, MessageType, ScalarKind, Schema, TypeRef};
use crate::value::{group_value_views, no_value, Value, ValueView};

verus! {

broadcast use group_value_views;

/// The bits of the 32-bit float that is zero with the sign set, which no
/// value holds: zero is written with every bit clear.
pub const NEGATIVE_ZERO_F32: u64 = 0x8000_0000;

/// The bits of the 64-bit float that is zero with the sign set.
pub const NEGATIVE_ZERO_F64: u64 = 0x8000_0000_0000_0000;

/// The default (zero) value of a scalar type.
pub open spec fn scalar_default(kind: ScalarKind) -> ValueView {
    match kind {
        ScalarKind::Bool => ValueView::Bool(false),
        ScalarKind::Char => ValueView::Char('\0'),
        ScalarKind::I8 | ScalarKind::I16 | ScalarKind::I32 | ScalarKind::I64 | ScalarKind::I128
        | ScalarKind::Isize => ValueView::Int(0),
        ScalarKind::F32 | ScalarKind::F64 => ValueView::Float(0),
        _ => ValueView::UInt(0),
    }
}

/// Whether `v` is a value of the scalar type `kind`.
pub open spec fn scalar_fits(kind: ScalarKind, v: ValueView) -> bool {
    match kind {
        ScalarKind::Bool => v is Bool,
        ScalarKind::Char => v is Char,
        ScalarKind::I8 => v is Int && i8::MIN <= v->Int_0 <= i8::MAX,
        ScalarKind::I16 => v is Int && i16::MIN <= v->Int_0 <= i16::MAX,
        ScalarKind::I32 => v is Int && i32::MIN <= v->Int_0 <= i32::MAX,
        ScalarKind::I64 => v is Int && i64::MIN <= v->Int_0 <= i64::MAX,
        ScalarKind::I128 => v is Int,
        ScalarKind::Isize => v is Int && isize::MIN <= v->Int_0 <= isize::MAX,
        ScalarKind::U8 => v is UInt && v->UInt_0 <= u8::MAX,
        ScalarKind::U16 => v is UInt && v->UInt_0 <= u16::MAX,
        ScalarKind::U32 => v is UInt && v->UInt_0 <= u32::MAX,
        ScalarKind::U64 => v is UInt && v->UInt_0 <= u64::MAX,
        ScalarKind::U128 => v is UInt,
        ScalarKind::Usize => v is UInt && v->UInt_0 <= usize::MAX,
        ScalarKind::F32 => v is Float && v->Float_0 <= u32::MAX && v->Float_0
            != NEGATIVE_ZERO_F32,
        ScalarKind::F64 => v is Float && v->Float_0 != NEGATIVE_ZERO_F64,
    }
}

/// The default value of `ty`: zero, empty, absent, the default tag, or the
/// record of the defaults of its fields.
pub open spec fn default_view(schema: &Schema, ty: TypeRef) -> ValueView
    decreases direct_rank(ty),
{
    match ty {
        TypeRef::Scalar(kind) => scalar_default(kind),
        TypeRef::Text => ValueView::Text(Seq::empty()),
        TypeRef::Bytes => ValueView::Bytes(Seq::empty()),
        TypeRef::List(_) => ValueView::List(Seq::empty()),
        TypeRef::Mapping(_, _) => ValueView::Mapping(Seq::empty()),
        TypeRef::Optional(_) => ValueView::Optional(None),
        TypeRef::Message(i) => if i < schema.len() {
            match schema.kind(i as int) {
                MessageType::UnitEnum => ValueView::Enum(schema.types@[i as int].default_number),
                MessageType::Struct => ValueView::Record(
                    Seq::new(
                        schema.arity(i as int),
                        |j: int|
                            if 0 <= j < schema.arity(i as int) && direct_rank(
                                schema.field(i as int, j).ty,
                            ) <= i {
                                default_view(schema, schema.field(i as int, j).ty)
                            } else {
                                no_value()
                            },
                    ),
                ),
                MessageType::TupleEnum => no_value(),
            }
        } else {
            no_value()
        },
    }
}

/// Whether no key occurs twice among the entries of a map.
pub open spec fn distinct_keys(entries: Seq<(ValueView, ValueView)>) -> bool {
    forall|a: int, b: int|
        0 <= a < b < entries.len() ==> (#[trigger] entries[a]).0 != (#[trigger] entries[b]).0
}

/// Whether `v` is a value of type `ty`. The entries of a map have
/// different keys.
pub open spec fn conforms_view(schema: &Schema, v: ValueView, ty: TypeRef) -> bool
    decreases v,
{
    match ty {
        TypeRef::Scalar(kind) => scalar_fits(kind, v),
        TypeRef::Text => v is Text,
        TypeRef::Bytes => v is Bytes,
        TypeRef::List(elem) => v is List && forall|k: int|
            0 <= k < v->List_0.len() ==> conforms_view(schema, #[trigger] v->List_0[k], *elem),
        TypeRef::Mapping(key, value) => v is Mapping && distinct_keys(v->Mapping_0) && forall|
            k: int,
        |
            0 <= k < v->Mapping_0.len() ==> {
                &&& conforms_view(schema, (#[trigger] v->Mapping_0[k]).0, *key)
                &&& conforms_view(schema, v->Mapping_0[k].1, *value)
            },
        TypeRef::Optional(inner) => v is Optional && (v->Optional_0 is Some ==> conforms_view(
            schema,
            *v->Optional_0->0,
            *inner,
        )),
        TypeRef::Message(i) => i < schema.len() && match schema.kind(i as int) {
            MessageType::UnitEnum => v is Enum,
            MessageType::Struct => v is Record && v->Record_0.len() == schema.arity(i as int)
                && forall|j: int|
                0 <= j < schema.arity(i as int) ==> conforms_view(
                    schema,
                    #[trigger] v->Record_0[j],
                    schema.field(i as int, j).ty,
                ),
            MessageType::TupleEnum => v is Variant && v->Variant_0 < schema.arity(i as int)
                && conforms_view(
                schema,
                *v->Variant_1,
                schema.field(i as int, v->Variant_0 as int).ty,
            ),
        },
    }
}

impl Schema {
    /// The default value of `ty`.
    pub fn default_of(&self, ty: &TypeRef) -> (r: Value)
        requires
            self.wf(),
            self.type_ok(*ty, true),
        ensures
            r@ == default_view(self, *ty),
            conforms_view(self, r@, *ty),
        decreases direct_rank(*ty),
    {
        match ty {
            TypeRef::Scalar(kind) => match kind {
                ScalarKind::Bool => Value::Bool(false),
                ScalarKind::Char => Value::Char('\0'),
                ScalarKind::I8 | ScalarKind::I16 | ScalarKind::I32 | ScalarKind::I64
                | ScalarKind::I128 | ScalarKind::Isize => Value::Int(0),
                ScalarKind::F32 | ScalarKind::F64 => Value::Float(0),
                _ => Value::UInt(0),
            },
            TypeRef::Text => Value::Text(String::new()),
            TypeRef::Bytes => {
                let r = Value::Bytes(Vec::new());
                assert(r@->Bytes_0 =~= Seq::<u8>::empty());
                r
            },
            TypeRef::List(_) => {
                let r = Value::List(Vec::new());
                assert(r@->List_0 =~= Seq::<ValueView>::empty());
                r
            },
            TypeRef::Mapping(_, _) => {
                let r = Value::Mapping(Vec::new());
                assert(r@->Mapping_0 =~= Seq::<(ValueView, ValueView)>::empty());
                r
            },
            TypeRef::Optional(_) => Value::Optional(None),
            TypeRef::Message(i) => {
                let info = &self.types[*i];
                assert(self.info_ok(*i as int));
                match info.message_type {
                    MessageType::UnitEnum => Value::Enum(info.default_number),
                    // A union has no value outside an optional: not reached.
                    MessageType::TupleEnum => Value::Bool(false),
                    MessageType::Struct => {
                        let mut out: Vec<Value> = Vec::new();
                        let n = info.fields.len();
                        let mut j: usize = 0;
                        while j < n
                            invariant
                                self.wf(),
                                *i < self.len(),
                                *ty == TypeRef::Message(*i),
                                self.kind(*i as int) == MessageType::Struct,
                                info == self.types@[*i as int],
                                n == self.arity(*i as int),
                                j <= n,
                                out.len() == j,
                                forall|k: int|
                                    0 <= k < j ==> (#[trigger] out@[k])@ == default_view(
                                        self,
                                        self.field(*i as int, k).ty,
                                    ),
                                forall|k: int|
                                    0 <= k < j ==> conforms_view(
                                        self,
                                        (#[trigger] out@[k])@,
                                        self.field(*i as int, k).ty,
                                    ),
                            decreases n - j,
                        {
                            assert(self.info_ok(*i as int));
                            assert(self.field_ok(*i as int, j as int));
                            let d = self.default_of(&info.fields[j].ty);
                            out.push(d);
                            j += 1;
                        }
                        let r = Value::Record(out);
                        proof {
                            assert forall|k: int| 0 <= k < n implies (#[trigger] self.field_ok(
                                *i as int,
                                k,
                            )) by {
                                assert(self.info_ok(*i as int));
                            }
                            let d = default_view(self, *ty);
                            assert(d is Record);
                            assert(d->Record_0.len() == n);
                            assert(r@->Record_0.len() == n);
                            assert forall|k: int| 0 <= k < n implies r@->Record_0[k] == d->Record_0[k] by {
                                assert(self.field_ok(*i as int, k));
                                assert(r@->Record_0[k] == out@[k]@);
                            }
                            assert(r@->Record_0 =~= default_view(self, *ty)->Record_0);
                        }
                        r
                    },
                }
            },
        }
    }
}

/// What it is for a value to be of a record type.
pub proof fn lemma_conforms_record(schema: &Schema, v: ValueView, i: usize)
    requires
        schema.is_struct(i as int),
        conforms_view(schema, v, TypeRef::Message(i)),
    ensures
        v is Record,
        v->Record_0.len() == schema.arity(i as int),
        forall|j: int|
            0 <= j < schema.arity(i as int) ==> conforms_view(
                schema,
                #[trigger] v->Record_0[j],
                schema.field(i as int, j).ty,
            ),
{
}

impl Schema {
    /// Whether `value`, of type `ty`, is the default value of `ty`.
    pub fn is_default(&self, value: &Value, ty: &TypeRef) -> (b: bool)
        requires
            self.wf(),
            conforms_view(self, value@, *ty),
        ensures
            b == (value@ == default_view(self, *ty)),
        decreases value,
    {
        match value {
            Value::Bool(x) => !*x,
            Value::Char(c) => *c == '\0',
            Value::Int(n) => *n == 0,
            Value::UInt(n) => *n == 0,
            Value::Float(bits) => *bits == 0,
            Value::Text(text) => {
                assert(text@.len() == 0 <==> text@ =~= Seq::<char>::empty());
                text.as_str().is_empty()
            },
            Value::Bytes(bytes) => {
                assert(bytes@.len() == 0 <==> bytes@ =~= Seq::<u8>::empty());
                bytes.len() == 0
            },
            Value::List(items) => {
                assert(value@->List_0.len() == 0 <==> value@->List_0 =~= Seq::<
                    ValueView,
                >::empty());
                items.len() == 0
            },
            Value::Mapping(entries) => {
                assert(value@->Mapping_0.len() == 0 <==> value@->Mapping_0 =~= Seq::<
                    (ValueView, ValueView),
                >::empty());
                entries.len() == 0
            },
            Value::Enum(n) => match ty {
                TypeRef::Message(i) => *n == self.types[*i].default_number,
                _ => false,
            },
            Value::Variant(_, _) => false,
            Value::Optional(o) => o.is_none(),
            Value::Record(fields) => match ty {
                TypeRef::Message(i) => {
                    let info = &self.types[*i];
                    let n = info.fields.len();
                    let ghost d = default_view(self, *ty);
                    let mut j: usize = 0;
                    while j < n
                        invariant
                            self.wf(),
                            *i < self.len(),
                            *ty == TypeRef::Message(*i),
                            *value == Value::Record(*fields),
                            self.kind(*i as int) == MessageType::Struct,
                            conforms_view(self, value@, *ty),
                            info == self.types@[*i as int],
                            n == self.arity(*i as int),
                            n == fields.len(),
                            d == default_view(self, *ty),
                            j <= n,
                            forall|k: int|
                                0 <= k < j ==> (#[trigger] fields@[k])@ == d->Record_0[k],
                        decreases n - j,
                    {
                        assert(self.info_ok(*i as int));
                        assert(self.field_ok(*i as int, j as int));
                        assert(value@->Record_0[j as int] == fields@[j as int]@);
                        proof {
                            lemma_conforms_record(self, value@, *i);
                        }
                        assert(decreases_to!(fields => fields@));
                        assert(decreases_to!(fields@ => fields@[j as int]));
                        if !self.is_default(&fields[j], &info.fields[j].ty) {
                            assert(value@->Record_0[j as int] != d->Record_0[j as int]);
                            return false;
                        }
                        j += 1;
                    }
                    proof {
                        assert forall|k: int| 0 <= k < n implies value@->Record_0[k]
                            == d->Record_0[k] by {
                            assert(value@->Record_0[k] == fields@[k]@);
                        }
                        assert(value@->Record_0 =~= d->Record_0);
                    }
                    true
                },
                _ => false,
            },
        }
    }
}

} // verus!
