use fieldmask::{Mask, MaskInput, MessageField, MessageInfo, ScalarKind, Schema, TypeRef, Value};

fn optional(ty: TypeRef) -> TypeRef {
    TypeRef::Optional(Box::new(ty))
}

fn some(value: Value) -> Value {
    Value::Optional(Some(Box::new(value)))
}

fn text(s: &str) -> Value {
    Value::Text(s.to_string())
}

fn child(field_one: &str, field_two: u128) -> Value {
    Value::Record(vec![text(field_one), Value::UInt(field_two)])
}

#[test]
fn case_1() {
    let mut schema = Schema::new();
    let child_ty = schema.add(MessageInfo::new_struct(
        "Child",
        vec![
            MessageField::new("field_one", TypeRef::Text),
            MessageField::new("field_two", TypeRef::Scalar(ScalarKind::U32)),
        ],
    ));
    let one_of = schema.add(MessageInfo::new_tuple_enum(
        "OneOfField",
        vec![
            MessageField::variant("VariantOne", TypeRef::Text),
            MessageField::variant("VariantTwo", TypeRef::Scalar(ScalarKind::U32)),
        ],
    ));
    let unit_enum = schema.add(MessageInfo::new_unit_enum("UnitEnum", 1, false));
    let unit_enum_with_default =
        schema.add(MessageInfo::new_unit_enum("UnitEnumWithDefault", 1, false));
    let parent = schema.add(MessageInfo::new_struct(
        "Parent",
        vec![
            MessageField::new("primitive", TypeRef::Text),
            MessageField::new("child", TypeRef::Message(child_ty)),
            MessageField::flatten("flatten_child", TypeRef::Message(child_ty)),
            MessageField::new("one_of_field", optional(TypeRef::Message(one_of))),
            MessageField::flatten("flatten_one_of_field", optional(TypeRef::Message(one_of))),
            MessageField::new("unit_enum", optional(TypeRef::Message(unit_enum))),
            MessageField::new(
                "unit_enum_with_default",
                TypeRef::Message(unit_enum_with_default),
            ),
        ],
    ));
    assert!(schema.validate());

    let target = Value::Record(vec![
        text("string"),
        child("child field one", 1),
        child("flatten child field one", 2),
        some(Value::Variant(0, Box::new(text("variant one")))),
        some(Value::Variant(1, Box::new(Value::UInt(3)))),
        some(Value::Enum(2)),
        Value::Enum(2),
    ]);
    let mask = vec![
        "primitive",
        "child.field_two",
        "field_one",
        "one_of_field.variant_one",
        "variant_two",
        "unit_enum",
        "unit_enum_with_default",
    ];
    let expected = Value::Record(vec![
        text("string"),
        child("", 1),
        child("flatten child field one", 0),
        some(Value::Variant(0, Box::new(text("variant one")))),
        some(Value::Variant(1, Box::new(Value::UInt(3)))),
        some(Value::Enum(2)),
        Value::Enum(2),
    ]);

    let mask = Mask::try_from(&schema, TypeRef::Message(parent), MaskInput(mask))
        .expect("unable to deserialize mask");
    let actual = mask.project(target);

    assert_eq!(actual, expected);
}
