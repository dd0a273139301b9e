//! Checking a registry, and a value against a type, before they are used.

use vstd::prelude::*;
use crate::schema::{core_rank, MessageType, ScalarKind, Schema, TypeRef};
use crate::typing::{
    conforms_view, distinct_keys, scalar_fits, NEGATIVE_ZERO_F32, NEGATIVE_ZERO_F64,
};
use crate::value::{
    entry_views_of, group_value_views, value_view, views_of, Value, ValueView,
};

verus! {

impl Schema {
    /// Whether `ty` mentions registered messages only, and a union only
    /// directly inside an optional.
    pub fn knows(&self, ty: &TypeRef, bare: bool) -> (b: bool)
        ensures
            b == self.type_ok(*ty, bare),
        decreases *ty,
    {
        match ty {
            TypeRef::List(elem) => self.knows(&**elem, true),
            TypeRef::Mapping(key, value) => self.knows(&**key, true) && self.knows(&**value, true),
            TypeRef::Message(i) => {
                if *i >= self.types.len() {
                    return false;
                }
                match self.types[*i].message_type {
                    MessageType::TupleEnum => !bare,
                    _ => true,
                }
            },
            TypeRef::Optional(inner) => self.knows(&**inner, false),
            _ => true,
        }
    }

    /// Whether field `j` of type `i` keeps the rules of the registry.
    fn field_is_ok(&self, i: usize, j: usize) -> (b: bool)
        requires
            i < self.len(),
            j < self.arity(i as int),
        ensures
            b == self.field_ok(i as int, j as int),
    {
        let info = &self.types[i];
        let field = &info.fields[j];
        if !self.knows(&field.ty, true) {
            return false;
        }
        proof {
            crate::node::lemma_type_ok_weakens(self, field.ty);
        }
        let ordered = match &field.ty {
            TypeRef::Message(k) => *k < i,
            _ => true,
        };
        if !ordered {
            return false;
        }
        if !field.is_flatten {
            return true;
        }
        match info.message_type {
            MessageType::TupleEnum => {
                return false;
            },
            _ => {},
        }
        match self.slot_owner(&field.ty) {
            Some(k) => k < i,
            None => {
                proof {
                    lemma_core_is_known(self, field.ty);
                }
                false
            },
        }
    }

    /// Whether the registry is well formed.
    pub fn validate(&self) -> (b: bool)
        ensures
            b == self.wf(),
    {
        let n = self.types.len();
        let mut i: usize = 0;
        while i < n
            invariant
                n == self.len(),
                i <= n,
                forall|k: int| 0 <= k < i ==> #[trigger] self.info_ok(k),
            decreases n - i,
        {
            let info = &self.types[i];
            let arity = info.fields.len();
            match info.message_type {
                MessageType::UnitEnum => {
                    if arity != 0 {
                        assert(!self.info_ok(i as int));
                        return false;
                    }
                },
                _ => {},
            }
            let mut j: usize = 0;
            while j < arity
                invariant
                    n == self.len(),
                    i < n,
                    arity == self.arity(i as int),
                    j <= arity,
                    forall|k: int| 0 <= k < j ==> #[trigger] self.field_ok(i as int, k),
                decreases arity - j,
            {
                if !self.field_is_ok(i, j) {
                    assert(!self.info_ok(i as int));
                    return false;
                }
                j += 1;
            }
            i += 1;
        }
        true
    }

    /// Whether `value` is a value of type `ty`.
    pub fn conforms(&self, value: &Value, ty: &TypeRef) -> (b: bool)
        ensures
            b == conforms_view(self, value@, *ty),
        decreases value,
    {
        broadcast use group_value_views;

        match ty {
            TypeRef::Scalar(kind) => scalar_conforms(*kind, value),
            TypeRef::Text => match value {
                Value::Text(_) => true,
                _ => false,
            },
            TypeRef::Bytes => match value {
                Value::Bytes(_) => true,
                _ => false,
            },
            TypeRef::List(elem) => match value {
                Value::List(items) => {
                    let n = items.len();
                    let mut k: usize = 0;
                    while k < n
                        invariant
                            n == items.len(),
                            k <= n,
                            *value == Value::List(*items),
                            *ty == TypeRef::List(*elem),
                            forall|q: int|
                                0 <= q < k ==> conforms_view(
                                    self,
                                    #[trigger] value@->List_0[q],
                                    **elem,
                                ),
                        decreases n - k,
                    {
                        assert(decreases_to!(items => items@));
                        assert(decreases_to!(items@ => items@[k as int]));
                        assert(value@ == value_view(Value::List(*items)));
                        assert(value@ == ValueView::List(views_of(items@)));
                        assert(value@->List_0[k as int] == items@[k as int]@);
                        if !self.conforms(&items[k], &**elem) {
                            return false;
                        }
                        k += 1;
                    }
                    true
                },
                _ => false,
            },
            TypeRef::Mapping(key_ty, value_ty) => match value {
                Value::Mapping(entries) => {
                    assert(value@ == value_view(Value::Mapping(*entries)));
                    assert(value@ == ValueView::Mapping(entry_views_of(entries@)));
                    if !keys_are_distinct(entries) {
                        return false;
                    }
                    let n = entries.len();
                    let mut k: usize = 0;
                    while k < n
                        invariant
                            n == entries.len(),
                            k <= n,
                            *value == Value::Mapping(*entries),
                            *ty == TypeRef::Mapping(*key_ty, *value_ty),
                            forall|q: int|
                                0 <= q < k ==> {
                                    &&& conforms_view(
                                        self,
                                        (#[trigger] value@->Mapping_0[q]).0,
                                        **key_ty,
                                    )
                                    &&& conforms_view(self, value@->Mapping_0[q].1, **value_ty)
                                },
                        decreases n - k,
                    {
                        assert(decreases_to!(entries => entries@));
                        assert(decreases_to!(entries@ => entries@[k as int]));
                        assert(decreases_to!(entries@[k as int] => entries@[k as int].0));
                        assert(decreases_to!(entries@[k as int] => entries@[k as int].1));
                        assert(value@ == value_view(Value::Mapping(*entries)));
                        assert(value@ == ValueView::Mapping(entry_views_of(entries@)));
                        assert(value@->Mapping_0[k as int] == (
                            entries@[k as int].0@,
                            entries@[k as int].1@,
                        ));
                        if !self.conforms(&entries[k].0, &**key_ty) {
                            return false;
                        }
                        if !self.conforms(&entries[k].1, &**value_ty) {
                            return false;
                        }
                        k += 1;
                    }
                    true
                },
                _ => false,
            },
            TypeRef::Optional(inner) => match value {
                Value::Optional(Some(held)) => self.conforms(&**held, &**inner),
                Value::Optional(None) => true,
                _ => false,
            },
            TypeRef::Message(i) => {
                if *i >= self.types.len() {
                    return false;
                }
                let info = &self.types[*i];
                match info.message_type {
                    MessageType::UnitEnum => match value {
                        Value::Enum(_) => true,
                        _ => false,
                    },
                    MessageType::TupleEnum => match value {
                        Value::Variant(k, payload) => {
                            if *k >= info.fields.len() {
                                return false;
                            }
                            self.conforms(&**payload, &info.fields[*k].ty)
                        },
                        _ => false,
                    },
                    MessageType::Struct => match value {
                        Value::Record(fields) => {
                            let n = info.fields.len();
                            if fields.len() != n {
                                return false;
                            }
                            let mut j: usize = 0;
                            while j < n
                                invariant
                                    *i < self.len(),
                                    info == self.types@[*i as int],
                                    n == self.arity(*i as int),
                                    n == fields.len(),
                                    j <= n,
                                    *value == Value::Record(*fields),
                                    *ty == TypeRef::Message(*i),
                                    self.kind(*i as int) == MessageType::Struct,
                                    forall|q: int|
                                        0 <= q < j ==> conforms_view(
                                            self,
                                            #[trigger] value@->Record_0[q],
                                            self.field(*i as int, q).ty,
                                        ),
                                decreases n - j,
                            {
                                assert(decreases_to!(fields => fields@));
                                assert(decreases_to!(fields@ => fields@[j as int]));
                                assert(value@ == value_view(Value::Record(*fields)));
                                assert(value@ == ValueView::Record(views_of(fields@)));
                                assert(value@->Record_0[j as int] == fields@[j as int]@);
                                if !self.conforms(&fields[j], &info.fields[j].ty) {
                                    return false;
                                }
                                j += 1;
                            }
                            true
                        },
                        _ => false,
                    },
                }
            },
        }
    }
}

/// Whether no key occurs twice among `entries`.
pub fn keys_are_distinct(entries: &Vec<(Value, Value)>) -> (b: bool)
    ensures
        b == distinct_keys(entry_views_of(entries@)),
{
    broadcast use group_value_views;

    let n = entries.len();
    let ghost views = entry_views_of(entries@);
    let mut i: usize = 0;
    while i < n
        invariant
            n == entries.len(),
            i <= n,
            views == entry_views_of(entries@),
            forall|a: int, b: int|
                0 <= a < i && a < b < n ==> (#[trigger] views[a]).0 != (#[trigger] views[b]).0,
        decreases n - i,
    {
        let mut j: usize = i + 1;
        while j < n
            invariant
                n == entries.len(),
                i < n,
                i < j <= n,
                views == entry_views_of(entries@),
                forall|a: int, b: int|
                    0 <= a < i && a < b < n ==> (#[trigger] views[a]).0 != (#[trigger] views[b]).0,
                forall|b: int| i < b < j ==> views[i as int].0 != (#[trigger] views[b]).0,
            decreases n - j,
        {
            assert(views[i as int].0 == entries@[i as int].0@);
            assert(views[j as int].0 == entries@[j as int].0@);
            if entries[i].0.equals(&entries[j].0) {
                return false;
            }
            j += 1;
        }
        i += 1;
    }
    true
}

/// The core of a known type is a leaf or a registered message.
pub proof fn lemma_core_is_known(schema: &Schema, ty: TypeRef)
    requires
        schema.type_ok(ty, false),
    ensures
        core_rank(ty) <= schema.len(),
    decreases ty,
{
    match ty {
        TypeRef::Optional(inner) => {
            lemma_core_is_known(schema, *inner);
        },
        _ => {},
    }
}

/// Whether `value` is a value of the scalar type `kind`.
pub fn scalar_conforms(kind: ScalarKind, value: &Value) -> (b: bool)
    ensures
        b == scalar_fits(kind, value@),
{
    match value {
        Value::Bool(_) => match kind {
            ScalarKind::Bool => true,
            _ => false,
        },
        Value::Char(_) => match kind {
            ScalarKind::Char => true,
            _ => false,
        },
        Value::Int(n) => match kind {
            ScalarKind::I8 => i8::MIN as i128 <= *n && *n <= i8::MAX as i128,
            ScalarKind::I16 => i16::MIN as i128 <= *n && *n <= i16::MAX as i128,
            ScalarKind::I32 => i32::MIN as i128 <= *n && *n <= i32::MAX as i128,
            ScalarKind::I64 => i64::MIN as i128 <= *n && *n <= i64::MAX as i128,
            ScalarKind::I128 => true,
            ScalarKind::Isize => isize::MIN as i128 <= *n && *n <= isize::MAX as i128,
            _ => false,
        },
        Value::UInt(n) => match kind {
            ScalarKind::U8 => *n <= u8::MAX as u128,
            ScalarKind::U16 => *n <= u16::MAX as u128,
            ScalarKind::U32 => *n <= u32::MAX as u128,
            ScalarKind::U64 => *n <= u64::MAX as u128,
            ScalarKind::U128 => true,
            ScalarKind::Usize => *n <= usize::MAX as u128,
            _ => false,
        },
        Value::Float(bits) => match kind {
            ScalarKind::F32 => *bits <= u32::MAX as u64 && *bits != NEGATIVE_ZERO_F32,
            ScalarKind::F64 => *bits != NEGATIVE_ZERO_F64,
            _ => false,
        },
        _ => false,
    }
}

} // verus!
