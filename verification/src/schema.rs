//! The schema registry: the descriptors of every record, tagged union and
//! enumeration that masks and values are interpreted against.

use vstd::prelude::*;
use vstd::string::StringExecFns;
use crate::names::{snake_case_of, to_snake_case};

verus! {

/// What kind of declaration a registered type is.
#[derive(Clone, Copy, Debug, PartialEq, Eq, Structural)]
pub enum MessageType {
    /// An enumeration of plain tags; a single value without fields.
    UnitEnum,
    /// A tagged union ("oneof"): exactly one variant with one payload.
    TupleEnum,
    /// A record with named fields.
    Struct,
}

/// The primitive scalar types.
#[derive(Clone, Copy, Debug, PartialEq, Eq, Structural)]
pub enum ScalarKind {
    Bool,
    Char,
    I8,
    I16,
    I32,
    I64,
    I128,
    Isize,
    U8,
    U16,
    U32,
    U64,
    U128,
    Usize,
    /// A 32-bit floating-point number.
    F32,
    /// A 64-bit floating-point number.
    F64,
}

/// A reference to a type: either a built-in leaf, a registered message, or
/// an optional wrapper around another reference.
#[derive(Debug, PartialEq, Eq)]
pub enum TypeRef {
    Scalar(ScalarKind),
    Text,
    Bytes,
    /// A repeated field; masks treat the whole sequence as one leaf.
    List(Box<TypeRef>),
    /// An associative container; masks treat the whole map as one leaf.
    Mapping(Box<TypeRef>, Box<TypeRef>),
    /// The registered type with this index.
    Message(usize),
    Optional(Box<TypeRef>),
}

/// The descriptor of one field of a record, or of one variant of a union.
#[derive(Debug, PartialEq, Eq)]
pub struct MessageField {
    /// The segment of a path that selects this field.
    pub name: String,
    pub ty: TypeRef,
    /// Whether the sub-fields of this field are addressed without a prefix.
    pub is_flatten: bool,
}

/// The descriptor of one registered type.
#[derive(Debug, PartialEq, Eq)]
pub struct MessageInfo {
    pub message_type: MessageType,
    pub ident: String,
    /// The fields of a record or the variants of a union, in declaration
    /// order. An enumeration has none.
    pub fields: Vec<MessageField>,
    /// The number of the default tag of an enumeration.
    pub default_number: i32,
    /// Whether normalisation collapses an optional enumeration that holds
    /// the default tag to absent.
    pub normalize_some_default: bool,
}

/// The registry itself: registered types are referred to by their position.
#[derive(Debug, PartialEq, Eq)]
pub struct Schema {
    pub types: Vec<MessageInfo>,
}

impl TypeRef {
    /// A copy of this reference.
    pub fn duplicate(&self) -> (r: TypeRef)
        ensures
            r == *self,
        decreases *self,
    {
        match self {
            TypeRef::Scalar(kind) => TypeRef::Scalar(*kind),
            TypeRef::Text => TypeRef::Text,
            TypeRef::Bytes => TypeRef::Bytes,
            TypeRef::List(elem) => TypeRef::List(Box::new(elem.duplicate())),
            TypeRef::Mapping(key, value) => TypeRef::Mapping(
                Box::new(key.duplicate()),
                Box::new(value.duplicate()),
            ),
            TypeRef::Message(i) => TypeRef::Message(*i),
            TypeRef::Optional(inner) => TypeRef::Optional(Box::new(inner.duplicate())),
        }
    }
}

impl Clone for TypeRef {
    fn clone(&self) -> (r: TypeRef)
        ensures
            r == *self,
    {
        self.duplicate()
    }
}

/// The type left when every optional wrapper is removed.
pub open spec fn core_of(ty: TypeRef) -> TypeRef
    decreases ty,
{
    match ty {
        TypeRef::Optional(inner) => core_of(*inner),
        _ => ty,
    }
}

/// One more than the registry index of the core of `ty`; zero for leaves.
pub open spec fn core_rank(ty: TypeRef) -> nat
    decreases ty,
{
    match ty {
        TypeRef::Optional(inner) => core_rank(*inner),
        TypeRef::Message(i) => (i + 1) as nat,
        _ => 0,
    }
}

/// One more than the registry index of `ty` when it is a message that is
/// not wrapped in anything; zero otherwise.
pub open spec fn direct_rank(ty: TypeRef) -> nat {
    match ty {
        TypeRef::Message(i) => (i + 1) as nat,
        _ => 0,
    }
}

impl Schema {
    pub open spec fn len(&self) -> nat {
        self.types@.len()
    }

    pub open spec fn kind(&self, i: int) -> MessageType {
        self.types@[i].message_type
    }

    pub open spec fn arity(&self, i: int) -> nat {
        self.types@[i].fields@.len()
    }

    pub open spec fn field(&self, i: int, j: int) -> MessageField {
        self.types@[i].fields@[j]
    }

    pub open spec fn is_struct(&self, i: int) -> bool {
        0 <= i < self.len() && self.kind(i) == MessageType::Struct
    }

    pub open spec fn is_union(&self, i: int) -> bool {
        0 <= i < self.len() && self.kind(i) == MessageType::TupleEnum
    }

    pub open spec fn is_enumeration(&self, i: int) -> bool {
        0 <= i < self.len() && self.kind(i) == MessageType::UnitEnum
    }

    /// Every message that `ty` mentions is registered, and a union is only
    /// mentioned directly inside an optional wrapper (`bare` says that
    /// `ty` itself is not directly inside one).
    pub open spec fn type_ok(&self, ty: TypeRef, bare: bool) -> bool
        decreases ty,
    {
        match ty {
            TypeRef::List(elem) => self.type_ok(*elem, true),
            TypeRef::Mapping(key, value) => self.type_ok(*key, true) && self.type_ok(*value, true),
            TypeRef::Message(i) => i < self.len() && (bare ==> !self.is_union(i as int)),
            TypeRef::Optional(inner) => self.type_ok(*inner, false),
            _ => true,
        }
    }

    /// The rules for field `j` of type `i`.
    pub open spec fn field_ok(&self, i: int, j: int) -> bool {
        let f = self.field(i, j);
        &&& self.type_ok(f.ty, true)
        &&& direct_rank(f.ty) <= i
        &&& self.kind(i) == MessageType::TupleEnum ==> !f.is_flatten
        &&& f.is_flatten ==> {
            &&& 0 < core_rank(f.ty) <= i
            &&& !self.is_enumeration(core_rank(f.ty) - 1)
            &&& self.arity(core_rank(f.ty) - 1) > 0
        }
    }

    pub open spec fn info_ok(&self, i: int) -> bool {
        &&& self.kind(i) == MessageType::UnitEnum ==> self.arity(i) == 0
        &&& forall|j: int| 0 <= j < self.arity(i) ==> #[trigger] self.field_ok(i, j)
    }

    /// Well-formedness of the registry.
    ///
    /// References are in range; a union is only used as the payload of an
    /// optional; only records and unions that have a field or a variant
    /// are flattened.
    ///
    /// The order of registration matters: a message that a record holds
    /// directly (not behind an optional or inside a container), and a
    /// message that it flattens, is registered before the record. This
    /// keeps a record from holding itself without end, so that every type
    /// has a default value and a mask that selects nothing. A registry
    /// whose types do not hold one another in a circle in this way can
    /// always be registered in such an order.
    pub open spec fn wf(&self) -> bool {
        forall|i: int| 0 <= i < self.len() ==> #[trigger] self.info_ok(i)
    }
}

impl MessageField {
    /// The descriptor of a plain field.
    pub fn new(name: &str, ty: TypeRef) -> (r: MessageField)
        ensures
            r.name@ == name@,
            r.ty == ty,
            !r.is_flatten,
    {
        MessageField { name: String::from_str(name), ty, is_flatten: false }
    }

    /// The descriptor of a flattened field.
    pub fn flatten(name: &str, ty: TypeRef) -> (r: MessageField)
        ensures
            r.name@ == name@,
            r.ty == ty,
            r.is_flatten,
    {
        MessageField { name: String::from_str(name), ty, is_flatten: true }
    }

    /// The descriptor of a variant whose tag is already in snake case.
    pub fn tagged(tag: String, ty: TypeRef) -> (r: MessageField)
        ensures
            r.name@ == tag@,
            r.ty == ty,
            !r.is_flatten,
    {
        MessageField { name: tag, ty, is_flatten: false }
    }

    /// The descriptor of the variant that is declared as `ident`: paths
    /// select it by `ident` in snake case.
    pub fn variant(ident: &str, ty: TypeRef) -> (r: MessageField)
        ensures
            r.name@ == snake_case_of(ident@),
            r.ty == ty,
            !r.is_flatten,
    {
        MessageField::tagged(to_snake_case(ident), ty)
    }
}

impl MessageInfo {
    /// The descriptor of a record.
    pub fn new_struct(ident: &str, fields: Vec<MessageField>) -> (r: MessageInfo)
        ensures
            r.message_type == MessageType::Struct,
            r.ident@ == ident@,
            r.fields == fields,
    {
        MessageInfo {
            message_type: MessageType::Struct,
            ident: String::from_str(ident),
            fields,
            default_number: 0,
            normalize_some_default: false,
        }
    }

    /// The descriptor of a tagged union.
    pub fn new_tuple_enum(ident: &str, variants: Vec<MessageField>) -> (r: MessageInfo)
        ensures
            r.message_type == MessageType::TupleEnum,
            r.ident@ == ident@,
            r.fields == variants,
    {
        MessageInfo {
            message_type: MessageType::TupleEnum,
            ident: String::from_str(ident),
            fields: variants,
            default_number: 0,
            normalize_some_default: false,
        }
    }

    /// The descriptor of an enumeration whose default tag has the number
    /// `default_number`.
    pub fn new_unit_enum(ident: &str, default_number: i32, normalize_some_default: bool) -> (r:
        MessageInfo)
        ensures
            r.message_type == MessageType::UnitEnum,
            r.ident@ == ident@,
            r.fields@.len() == 0,
            r.default_number == default_number,
            r.normalize_some_default == normalize_some_default,
    {
        MessageInfo {
            message_type: MessageType::UnitEnum,
            ident: String::from_str(ident),
            fields: Vec::new(),
            default_number,
            normalize_some_default,
        }
    }
}

impl Schema {
    /// The registry without types.
    pub fn new() -> (r: Schema)
        ensures
            r.len() == 0,
            r.wf(),
    {
        Schema { types: Vec::new() }
    }

    /// Registers a type, and returns its index.
    ///
    /// Types are registered in an order that `wf` accepts: what a record
    /// holds directly or flattens comes before the record. A type behind an
    /// optional or inside a container may be registered later, by the index
    /// that it is going to have.
    pub fn add(&mut self, info: MessageInfo) -> (index: usize)
        ensures
            index == old(self).len(),
            final(self).types@ == old(self).types@.push(info),
    {
        let index = self.types.len();
        self.types.push(info);
        index
    }

    /// The descriptors of the fields of the record with index `i`.
    pub fn fields_of(&self, i: usize) -> (r: &Vec<MessageField>)
        requires
            self.is_struct(i as int),
        ensures
            r == self.types@[i as int].fields,
    {
        &self.types[i].fields
    }

    /// The descriptors of the variants of the union with index `i`.
    pub fn variants_of(&self, i: usize) -> (r: &Vec<MessageField>)
        requires
            self.is_union(i as int),
        ensures
            r == self.types@[i as int].fields,
    {
        &self.types[i].fields
    }
}

} // verus!
