use fieldmask::{Mask, MaskInput, MessageField, MessageInfo, ScalarKind, Schema, TypeRef, Value};

#[test]
fn test_nested_struct() {
    let mut schema = Schema::new();
    let child = schema.add(MessageInfo::new_struct(
        "ChildStruct",
        vec![
            MessageField::new("a", TypeRef::Scalar(ScalarKind::U32)),
            MessageField::new("b", TypeRef::Scalar(ScalarKind::U32)),
        ],
    ));
    let parent = schema.add(MessageInfo::new_struct(
        "ParentStruct",
        vec![
            MessageField::new("child", TypeRef::Message(child)),
            MessageField::new("c", TypeRef::Scalar(ScalarKind::U32)),
        ],
    ));
    let mut struct1 = Value::Record(vec![
        Value::Record(vec![Value::UInt(1), Value::UInt(2)]),
        Value::UInt(3),
    ]);
    let struct2 = Value::Record(vec![
        Value::Record(vec![Value::UInt(4), Value::UInt(5)]),
        Value::UInt(6),
    ]);
    let expected_struct = Value::Record(vec![
        Value::Record(vec![Value::UInt(1), Value::UInt(5)]),
        Value::UInt(6),
    ]);

    Mask::try_from(&schema, TypeRef::Message(parent), MaskInput(vec!["child.b", "c"]))
        .expect("unable to deserialize mask")
        .update(&mut struct1, struct2);
    assert_eq!(struct1, expected_struct);
}
