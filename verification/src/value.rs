//! Dynamic values and their mathematical model.

use vstd::prelude::*;

verus! {

/// A value of some type of the schema.
#[derive(Debug, PartialEq, Eq)]
pub enum Value {
    Bool(bool),
    Char(char),
    /// A signed integer of any width.
    Int(i128),
    /// An unsigned integer of any width.
    UInt(u128),
    /// A floating-point number, by its bits. Zero, of either sign, is
    /// written with every bit clear, so that the default is one value.
    Float(u64),
    Text(String),
    Bytes(Vec<u8>),
    List(Vec<Value>),
    /// The entries of an associative container, as pairs of key and value.
    /// In a value of a map type no key occurs twice.
    Mapping(Vec<(Value, Value)>),
    /// A tag of an enumeration, by its number.
    Enum(i32),
    /// A record, by the values of its fields in declaration order.
    Record(Vec<Value>),
    /// A union that holds the variant with this index and this payload.
    Variant(usize, Box<Value>),
    Optional(Option<Box<Value>>),
}

/// The mathematical model of a [`Value`].
pub enum ValueView {
    Bool(bool),
    Char(char),
    Int(i128),
    UInt(u128),
    Float(u64),
    Text(Seq<char>),
    Bytes(Seq<u8>),
    List(Seq<ValueView>),
    Mapping(Seq<(ValueView, ValueView)>),
    Enum(i32),
    Record(Seq<ValueView>),
    Variant(usize, Box<ValueView>),
    Optional(Option<Box<ValueView>>),
}

/// Stands where no value is meant.
pub open spec fn no_value() -> ValueView {
    ValueView::Bool(false)
}

pub open spec fn value_view(v: Value) -> ValueView
    decreases v, 0int,
{
    match v {
        Value::Bool(b) => ValueView::Bool(b),
        Value::Char(c) => ValueView::Char(c),
        Value::Int(n) => ValueView::Int(n),
        Value::UInt(n) => ValueView::UInt(n),
        Value::Float(bits) => ValueView::Float(bits),
        Value::Text(s) => ValueView::Text(s@),
        Value::Bytes(b) => ValueView::Bytes(b@),
        Value::List(items) => ValueView::List(views_of(items@)),
        Value::Mapping(entries) => ValueView::Mapping(entry_views_of(entries@)),
        Value::Enum(n) => ValueView::Enum(n),
        Value::Record(fields) => ValueView::Record(views_of(fields@)),
        Value::Variant(k, payload) => ValueView::Variant(k, Box::new(value_view(*payload))),
        Value::Optional(o) => match o {
            Some(inner) => ValueView::Optional(Some(Box::new(value_view(*inner)))),
            None => ValueView::Optional(None),
        },
    }
}

/// The models of a sequence of values, one for one.
pub open spec fn views_of(vs: Seq<Value>) -> Seq<ValueView>
    decreases vs, 1int,
{
    Seq::new(
        vs.len(),
        |i: int|
            if 0 <= i < vs.len() {
                value_view(vs[i])
            } else {
                no_value()
            },
    )
}

/// The models of a sequence of entries, one for one.
pub open spec fn entry_views_of(es: Seq<(Value, Value)>) -> Seq<(ValueView, ValueView)>
    decreases es, 1int,
{
    Seq::new(
        es.len(),
        |i: int|
            if 0 <= i < es.len() {
                (value_view(es[i].0), value_view(es[i].1))
            } else {
                (no_value(), no_value())
            },
    )
}

impl View for Value {
    type V = ValueView;

    open spec fn view(&self) -> ValueView {
        value_view(*self)
    }
}

/// `views_of` maps position by position.
pub broadcast proof fn lemma_views_of(vs: Seq<Value>)
    ensures
        (#[trigger] views_of(vs)).len() == vs.len(),
        forall|i: int| 0 <= i < vs.len() ==> (#[trigger] views_of(vs)[i]) == vs[i]@,
{
}

/// `entry_views_of` maps position by position.
pub broadcast proof fn lemma_entry_views_of(es: Seq<(Value, Value)>)
    ensures
        (#[trigger] entry_views_of(es)).len() == es.len(),
        forall|i: int|
            0 <= i < es.len() ==> (#[trigger] entry_views_of(es)[i]) == (es[i].0@, es[i].1@),
{
}

/// The model of a list holds the models of its items.
pub broadcast proof fn lemma_list_view(items: Vec<Value>)
    ensures
        #[trigger] value_view(Value::List(items)) == ValueView::List(views_of(items@)),
{
}

/// The model of a record holds the models of its fields.
pub broadcast proof fn lemma_record_view(fields: Vec<Value>)
    ensures
        #[trigger] value_view(Value::Record(fields)) == ValueView::Record(views_of(fields@)),
{
}

/// The model of a map holds the models of its entries.
pub broadcast proof fn lemma_mapping_view(entries: Vec<(Value, Value)>)
    ensures
        #[trigger] value_view(Value::Mapping(entries)) == ValueView::Mapping(
            entry_views_of(entries@),
        ),
{
}

pub broadcast group group_value_views {
    lemma_views_of,
    lemma_entry_views_of,
    lemma_list_view,
    lemma_record_view,
    lemma_mapping_view,
}

/// A copy of a byte buffer.
fn copy_bytes(bytes: &Vec<u8>) -> (r: Vec<u8>)
    ensures
        r@ == bytes@,
{
    let mut out: Vec<u8> = Vec::new();
    let mut i: usize = 0;
    while i < bytes.len()
        invariant
            i <= bytes.len(),
            out@ == bytes@.take(i as int),
        decreases bytes.len() - i,
    {
        out.push(bytes[i]);
        assert(bytes@.take(i + 1) =~= bytes@.take(i as int).push(bytes@[i as int]));
        i += 1;
    }
    assert(bytes@.take(bytes.len() as int) =~= bytes@);
    out
}

impl Value {
    /// A copy of this value.
    pub fn duplicate(&self) -> (r: Value)
        ensures
            r@ == self@,
        decreases self,
    {
        broadcast use group_value_views;

        match self {
            Value::Bool(b) => Value::Bool(*b),
            Value::Char(c) => Value::Char(*c),
            Value::Int(n) => Value::Int(*n),
            Value::UInt(n) => Value::UInt(*n),
            Value::Float(bits) => Value::Float(*bits),
            Value::Text(s) => Value::Text(s.clone()),
            Value::Bytes(b) => Value::Bytes(copy_bytes(b)),
            Value::Enum(n) => Value::Enum(*n),
            Value::Variant(k, payload) => Value::Variant(*k, Box::new(payload.duplicate())),
            Value::Optional(o) => match o {
                Some(held) => Value::Optional(Some(Box::new(held.duplicate()))),
                None => Value::Optional(None),
            },
            Value::List(items) => {
                let copies = duplicate_all(items);
                let r = Value::List(copies);
                assert(r@->List_0 =~= self@->List_0);
                r
            },
            Value::Record(fields) => {
                let copies = duplicate_all(fields);
                let r = Value::Record(copies);
                assert(r@->Record_0 =~= self@->Record_0);
                r
            },
            Value::Mapping(entries) => {
                let n = entries.len();
                let mut out: Vec<(Value, Value)> = Vec::new();
                let mut i: usize = 0;
                while i < n
                    invariant
                        n == entries.len(),
                        i <= n,
                        out.len() == i,
                        *self == Value::Mapping(*entries),
                        forall|k: int|
                            0 <= k < i ==> (#[trigger] out@[k]).0@ == entries@[k].0@ && out@[k].1@
                                == entries@[k].1@,
                    decreases n - i,
                {
                    assert(decreases_to!(entries => entries@));
                    assert(decreases_to!(entries@ => entries@[i as int]));
                    assert(decreases_to!(entries@[i as int] => entries@[i as int].0));
                    assert(decreases_to!(entries@[i as int] => entries@[i as int].1));
                    assert(decreases_to!(*self => self->Mapping_0));
                    let key = entries[i].0.duplicate();
                    let value = entries[i].1.duplicate();
                    out.push((key, value));
                    i += 1;
                }
                let r = Value::Mapping(out);
                assert(r@->Mapping_0 =~= self@->Mapping_0);
                r
            },
        }
    }
}

/// Copies of the values of a sequence, one for one.
fn duplicate_all(values: &Vec<Value>) -> (r: Vec<Value>)
    ensures
        views_of(r@) == views_of(values@),
    decreases values,
{
    broadcast use group_value_views;

    let n = values.len();
    let mut out: Vec<Value> = Vec::new();
    let mut i: usize = 0;
    while i < n
        invariant
            n == values.len(),
            i <= n,
            out.len() == i,
            forall|k: int| 0 <= k < i ==> (#[trigger] out@[k])@ == values@[k]@,
        decreases n - i,
    {
        assert(decreases_to!(values => values@));
        assert(decreases_to!(values@ => values@[i as int]));
        out.push(values[i].duplicate());
        i += 1;
    }
    assert(views_of(out@) =~= views_of(values@));
    out
}

impl Clone for Value {
    fn clone(&self) -> (r: Value)
        ensures
            r@ == self@,
    {
        self.duplicate()
    }
}

/// Whether two byte buffers hold the same bytes.
fn same_bytes(a: &Vec<u8>, b: &Vec<u8>) -> (r: bool)
    ensures
        r == (a@ == b@),
{
    if a.len() != b.len() {
        return false;
    }
    let mut i: usize = 0;
    while i < a.len()
        invariant
            a.len() == b.len(),
            i <= a.len(),
            forall|k: int| 0 <= k < i ==> a@[k] == b@[k],
        decreases a.len() - i,
    {
        if a[i] != b[i] {
            return false;
        }
        i += 1;
    }
    assert(a@ =~= b@);
    true
}

/// Whether two sequences of values hold the same values, one for one.
fn same_values(a: &Vec<Value>, b: &Vec<Value>) -> (r: bool)
    ensures
        r == (views_of(a@) == views_of(b@)),
    decreases a,
{
    broadcast use group_value_views;

    if a.len() != b.len() {
        assert(views_of(a@).len() != views_of(b@).len());
        return false;
    }
    let mut i: usize = 0;
    while i < a.len()
        invariant
            a.len() == b.len(),
            i <= a.len(),
            forall|k: int| 0 <= k < i ==> (#[trigger] a@[k])@ == b@[k]@,
        decreases a.len() - i,
    {
        assert(decreases_to!(a => a@));
        assert(decreases_to!(a@ => a@[i as int]));
        if !a[i].equals(&b[i]) {
            assert(views_of(a@)[i as int] != views_of(b@)[i as int]);
            return false;
        }
        i += 1;
    }
    assert(views_of(a@) =~= views_of(b@));
    true
}

impl Value {
    /// Whether this value and `other` are the same value.
    pub fn equals(&self, other: &Value) -> (r: bool)
        ensures
            r == (self@ == other@),
        decreases self,
    {
        broadcast use group_value_views;

        match (self, other) {
            (Value::Bool(a), Value::Bool(b)) => *a == *b,
            (Value::Char(a), Value::Char(b)) => *a == *b,
            (Value::Int(a), Value::Int(b)) => *a == *b,
            (Value::UInt(a), Value::UInt(b)) => *a == *b,
            (Value::Float(a), Value::Float(b)) => *a == *b,
            (Value::Text(a), Value::Text(b)) => *a == *b,
            (Value::Bytes(a), Value::Bytes(b)) => same_bytes(a, b),
            (Value::Enum(a), Value::Enum(b)) => *a == *b,
            (Value::List(a), Value::List(b)) => {
                assert(decreases_to!(*self => self->List_0));
                same_values(a, b)
            },
            (Value::Record(a), Value::Record(b)) => {
                assert(decreases_to!(*self => self->Record_0));
                same_values(a, b)
            },
            (Value::Variant(ka, pa), Value::Variant(kb, pb)) => *ka == *kb && pa.equals(&**pb),
            (Value::Optional(a), Value::Optional(b)) => match (a, b) {
                (Some(x), Some(y)) => x.equals(&**y),
                (None, None) => true,
                _ => false,
            },
            (Value::Mapping(a), Value::Mapping(b)) => {
                if a.len() != b.len() {
                    assert(entry_views_of(a@).len() != entry_views_of(b@).len());
                    return false;
                }
                let mut i: usize = 0;
                while i < a.len()
                    invariant
                        a.len() == b.len(),
                        i <= a.len(),
                        *self == Value::Mapping(*a),
                        *other == Value::Mapping(*b),
                        forall|k: int|
                            0 <= k < i ==> (#[trigger] a@[k]).0@ == b@[k].0@ && a@[k].1@
                                == b@[k].1@,
                    decreases a.len() - i,
                {
                    assert(decreases_to!(*self => self->Mapping_0));
                    assert(decreases_to!(a => a@));
                    assert(decreases_to!(a@ => a@[i as int]));
                    assert(decreases_to!(a@[i as int] => a@[i as int].0));
                    assert(decreases_to!(a@[i as int] => a@[i as int].1));
                    if !a[i].0.equals(&b[i].0) || !a[i].1.equals(&b[i].1) {
                        assert(entry_views_of(a@)[i as int] != entry_views_of(b@)[i as int]);
                        return false;
                    }
                    i += 1;
                }
                assert(entry_views_of(a@) =~= entry_views_of(b@));
                true
            },
            _ => false,
        }
    }
}

} // verus!
