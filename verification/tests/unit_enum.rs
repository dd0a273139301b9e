use fieldmask::{
    Mask,
    MaskInput,
    MessageField,
    MessageInfo,
    ProjectOptions,
    ScalarKind,
    Schema,
    TypeRef,
    Value,
};

const ONE: i32 = 1;
const TWO: i32 = 2;

/// `enum UnitEnumNoDefault { One = 1, Two = 2 }`,
/// `enum UnitEnumWithDefault { #[default] One = 1, Two = 2 }`, which is
/// normalised when it is optional, and
/// `struct Parent { primitive: u32, optional: Option<UnitEnumNoDefault>,
/// required: UnitEnumWithDefault, optional_with_default: Option<UnitEnumWithDefault> }`
fn unit_enum_schema() -> (Schema, TypeRef) {
    let mut schema = Schema::new();
    let no_default = schema.add(MessageInfo::new_unit_enum("UnitEnumNoDefault", ONE, false));
    let with_default = schema.add(MessageInfo::new_unit_enum("UnitEnumWithDefault", ONE, true));
    let parent = schema.add(MessageInfo::new_struct(
        "Parent",
        vec![
            MessageField::new("primitive", TypeRef::Scalar(ScalarKind::U32)),
            MessageField::new(
                "optional",
                TypeRef::Optional(Box::new(TypeRef::Message(no_default))),
            ),
            MessageField::new("required", TypeRef::Message(with_default)),
            MessageField::new(
                "optional_with_default",
                TypeRef::Optional(Box::new(TypeRef::Message(with_default))),
            ),
        ],
    ));
    (schema, TypeRef::Message(parent))
}

fn unit_enum_parent(
    primitive: u128,
    optional: Option<i32>,
    required: i32,
    optional_with_default: Option<i32>,
) -> Value {
    Value::Record(vec![
        Value::UInt(primitive),
        Value::Optional(optional.map(|tag| Box::new(Value::Enum(tag)))),
        Value::Enum(required),
        Value::Optional(optional_with_default.map(|tag| Box::new(Value::Enum(tag)))),
    ])
}

#[test]
fn optional_selected() {
    let (schema, ty) = unit_enum_schema();
    let source = unit_enum_parent(1, Some(TWO), TWO, Some(ONE));
    let expected = unit_enum_parent(0, Some(TWO), ONE, None);

    let actual = Mask::try_from(&schema, ty, MaskInput(vec!["optional"]))
        .expect("unable to deserialize mask")
        .project(source);

    assert_eq!(actual, expected);
}

#[test]
fn optional_with_default_selected() {
    let (schema, ty) = unit_enum_schema();
    let source = unit_enum_parent(1, Some(TWO), TWO, Some(ONE));
    let expected = unit_enum_parent(0, None, ONE, Some(ONE));

    let actual = Mask::try_from(&schema, ty.clone(), MaskInput(vec!["optional_with_default"]))
        .expect("unable to deserialize mask")
        .project(source);

    assert_eq!(actual, expected);

    // Test normalization.
    let expected = unit_enum_parent(0, None, ONE, None);

    let actual = Mask::empty(&schema, ty)
        .project_with_options(actual, &ProjectOptions::builder().normalize(true).build());

    assert_eq!(actual, expected);
}

#[test]
fn optional_not_selected() {
    let (schema, ty) = unit_enum_schema();
    let source = unit_enum_parent(1, Some(ONE), TWO, Some(ONE));
    let expected = unit_enum_parent(1, None, ONE, None);

    let actual = Mask::try_from(&schema, ty, MaskInput(vec!["primitive"]))
        .expect("unable to deserialize mask")
        .project(source);

    assert_eq!(actual, expected);
}
