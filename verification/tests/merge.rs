use fieldmask::{MessageField, MessageInfo, ScalarKind, Schema, TypeRef, UpdateOptions, Value};

fn merged(schema: &Schema, ty: &TypeRef, target: Value, source: Value, o: UpdateOptions) -> Value {
    let mut target = target;
    schema.merge(ty, &mut target, source, &o);
    target
}

fn text(s: &str) -> Value {
    Value::Text(s.to_string())
}

fn some(value: Value) -> Value {
    Value::Optional(Some(Box::new(value)))
}

fn none() -> Value {
    Value::Optional(None)
}

fn optional(ty: TypeRef) -> TypeRef {
    TypeRef::Optional(Box::new(ty))
}

#[test]
fn merge_keeps_a_scalar_when_the_source_is_zero() {
    let mut schema = Schema::new();
    let record = schema.add(MessageInfo::new_struct(
        "Record",
        vec![MessageField::new("a", TypeRef::Scalar(ScalarKind::U32))],
    ));
    let ty = TypeRef::Message(record);
    let one = || Value::Record(vec![Value::UInt(1)]);
    let zero = Value::Record(vec![Value::UInt(0)]);
    let nine = || Value::Record(vec![Value::UInt(9)]);

    assert_eq!(merged(&schema, &ty, one(), zero, UpdateOptions::default()), one());
    assert_eq!(merged(&schema, &ty, one(), nine(), UpdateOptions::default()), nine());
}

#[test]
fn merge_overwrites_scalars_unless_the_source_is_the_default() {
    let schema = Schema::new();
    let o = UpdateOptions::default();
    let boolean = TypeRef::Scalar(ScalarKind::Bool);
    assert_eq!(merged(&schema, &boolean, Value::Bool(true), Value::Bool(false), o), Value::Bool(true));
    assert_eq!(merged(&schema, &boolean, Value::Bool(false), Value::Bool(true), o), Value::Bool(true));
    let character = TypeRef::Scalar(ScalarKind::Char);
    assert_eq!(merged(&schema, &character, Value::Char('x'), Value::Char('\0'), o), Value::Char('x'));
    assert_eq!(merged(&schema, &character, Value::Char('x'), Value::Char('y'), o), Value::Char('y'));
    let signed = TypeRef::Scalar(ScalarKind::I64);
    assert_eq!(merged(&schema, &signed, Value::Int(-4), Value::Int(0), o), Value::Int(-4));
    assert_eq!(merged(&schema, &signed, Value::Int(-4), Value::Int(-5), o), Value::Int(-5));
}

#[test]
fn merge_overwrites_texts_bytes_and_maps_unless_the_source_is_empty() {
    let schema = Schema::new();
    let o = UpdateOptions::default();
    assert_eq!(merged(&schema, &TypeRef::Text, text("old"), text(""), o), text("old"));
    assert_eq!(merged(&schema, &TypeRef::Text, text("old"), text("new"), o), text("new"));
    assert_eq!(
        merged(&schema, &TypeRef::Bytes, Value::Bytes(vec![1, 2]), Value::Bytes(vec![]), o),
        Value::Bytes(vec![1, 2]),
    );
    assert_eq!(
        merged(&schema, &TypeRef::Bytes, Value::Bytes(vec![1, 2]), Value::Bytes(vec![3]), o),
        Value::Bytes(vec![3]),
    );
    let map_type = TypeRef::Mapping(
        Box::new(TypeRef::Text),
        Box::new(TypeRef::Scalar(ScalarKind::U8)),
    );
    let old = || Value::Mapping(vec![(text("k"), Value::UInt(1))]);
    let new = || Value::Mapping(vec![(text("q"), Value::UInt(2))]);
    assert_eq!(merged(&schema, &map_type, old(), Value::Mapping(vec![]), o), old());
    assert_eq!(merged(&schema, &map_type, old(), new(), o), new());
}

#[test]
fn merge_appends_to_a_repeated_field_or_replaces_it() {
    let schema = Schema::new();
    let list_type = TypeRef::List(Box::new(TypeRef::Scalar(ScalarKind::U32)));
    let list = |items: &[u128]| Value::List(items.iter().map(|n| Value::UInt(*n)).collect());

    let appended =
        merged(&schema, &list_type, list(&[1, 2]), list(&[3]), UpdateOptions::default());
    assert_eq!(appended, list(&[1, 2, 3]));

    let replaced = merged(
        &schema,
        &list_type,
        list(&[1, 2]),
        list(&[3]),
        UpdateOptions::builder().replace_repeated(true).build(),
    );
    assert_eq!(replaced, list(&[3]));

    let emptied = merged(
        &schema,
        &list_type,
        list(&[1, 2]),
        list(&[]),
        UpdateOptions::builder().replace_repeated(true).build(),
    );
    assert_eq!(emptied, list(&[]));
}

#[test]
fn merge_of_records_goes_field_by_field_or_replaces() {
    let mut schema = Schema::new();
    let record = schema.add(MessageInfo::new_struct(
        "Record",
        vec![
            MessageField::new("a", TypeRef::Scalar(ScalarKind::U32)),
            MessageField::new("b", TypeRef::Text),
        ],
    ));
    let ty = TypeRef::Message(record);
    let value = |a: u128, b: &str| Value::Record(vec![Value::UInt(a), text(b)]);

    let field_by_field =
        merged(&schema, &ty, value(1, "old"), value(0, "new"), UpdateOptions::default());
    assert_eq!(field_by_field, value(1, "new"));

    let wholesale = merged(
        &schema,
        &ty,
        value(1, "old"),
        value(0, "new"),
        UpdateOptions::builder().replace_message(true).build(),
    );
    assert_eq!(wholesale, value(0, "new"));
}

#[test]
fn merge_of_optionals() {
    let schema = Schema::new();
    let ty = optional(TypeRef::Scalar(ScalarKind::U32));
    let o = UpdateOptions::default();
    assert_eq!(merged(&schema, &ty, some(Value::UInt(1)), none(), o), some(Value::UInt(1)));
    assert_eq!(merged(&schema, &ty, none(), some(Value::UInt(2)), o), some(Value::UInt(2)));
    assert_eq!(merged(&schema, &ty, none(), none(), o), none());
    assert_eq!(
        merged(&schema, &ty, some(Value::UInt(1)), some(Value::UInt(2)), o),
        some(Value::UInt(2)),
    );
    assert_eq!(
        merged(&schema, &ty, some(Value::UInt(1)), some(Value::UInt(0)), o),
        some(Value::UInt(1)),
    );
}

#[test]
fn merge_of_unions() {
    let mut schema = Schema::new();
    let record = schema.add(MessageInfo::new_struct(
        "Record",
        vec![
            MessageField::new("a", TypeRef::Scalar(ScalarKind::U32)),
            MessageField::new("b", TypeRef::Text),
        ],
    ));
    let union = schema.add(MessageInfo::new_tuple_enum(
        "Union",
        vec![
            MessageField::variant("First", TypeRef::Message(record)),
            MessageField::variant("Second", TypeRef::Text),
        ],
    ));
    assert!(schema.validate());
    let ty = optional(TypeRef::Message(union));
    let first =
        |a: u128, b: &str| some(Value::Variant(0, Box::new(Value::Record(vec![Value::UInt(a), text(b)]))));
    let second = |s: &str| some(Value::Variant(1, Box::new(text(s))));
    let o = UpdateOptions::default();

    // The same variant: the payloads are merged.
    assert_eq!(merged(&schema, &ty, first(1, "old"), first(0, "new"), o), first(1, "new"));
    // Another variant: the source is taken as it is.
    assert_eq!(merged(&schema, &ty, first(1, "old"), second("s"), o), second("s"));
    // An absent source changes nothing; a present one fills an absent target.
    assert_eq!(merged(&schema, &ty, first(1, "old"), none(), o), first(1, "old"));
    assert_eq!(merged(&schema, &ty, none(), second("s"), o), second("s"));
}

#[test]
fn merge_of_tags() {
    let mut schema = Schema::new();
    let tag = schema.add(MessageInfo::new_unit_enum("Tag", 1, false));
    let o = UpdateOptions::default();

    let required = TypeRef::Message(tag);
    assert_eq!(merged(&schema, &required, Value::Enum(2), Value::Enum(1), o), Value::Enum(2));
    assert_eq!(merged(&schema, &required, Value::Enum(2), Value::Enum(3), o), Value::Enum(3));

    let ty = optional(TypeRef::Message(tag));
    assert_eq!(merged(&schema, &ty, some(Value::Enum(2)), some(Value::Enum(1)), o), some(Value::Enum(2)));
    assert_eq!(merged(&schema, &ty, some(Value::Enum(2)), some(Value::Enum(3)), o), some(Value::Enum(3)));
    assert_eq!(merged(&schema, &ty, some(Value::Enum(2)), none(), o), some(Value::Enum(2)));
    assert_eq!(merged(&schema, &ty, none(), some(Value::Enum(1)), o), some(Value::Enum(1)));
}
