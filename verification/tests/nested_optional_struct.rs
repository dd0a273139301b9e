use fieldmask::{Mask, MaskInput, MessageField, MessageInfo, ScalarKind, Schema, TypeRef, Value};

/// `struct ChildStruct { a: u32, b: u32 }` and
/// `struct ParentStruct { child: Option<ChildStruct>, c: u32 }`
fn optional_struct_schema() -> (Schema, TypeRef) {
    let mut schema = Schema::new();
    let child = schema.add(MessageInfo::new_struct(
        "ChildStruct",
        vec![
            MessageField::new("a", TypeRef::Scalar(ScalarKind::U32)),
            MessageField::new("b", TypeRef::Scalar(ScalarKind::U32)),
        ],
    ));
    let parent = schema.add(MessageInfo::new_struct(
        "ParentStruct",
        vec![
            MessageField::new("child", TypeRef::Optional(Box::new(TypeRef::Message(child)))),
            MessageField::new("c", TypeRef::Scalar(ScalarKind::U32)),
        ],
    ));
    (schema, TypeRef::Message(parent))
}

fn optional_struct_parent(child: Option<(u128, u128)>, c: u128) -> Value {
    let child = child.map(|(a, b)| Box::new(Value::Record(vec![Value::UInt(a), Value::UInt(b)])));
    Value::Record(vec![Value::Optional(child), Value::UInt(c)])
}

fn optional_struct_apply(mask: Vec<&str>, target: Value, source: Value) -> Value {
    let (schema, ty) = optional_struct_schema();
    let mut target = target;
    Mask::try_from(&schema, ty, MaskInput(mask))
        .expect("unable to deserialize mask")
        .update(&mut target, source);
    target
}

#[test]
fn optional_child() {
    let struct1 = optional_struct_parent(Some((1, 2)), 3);
    let struct2 = optional_struct_parent(Some((4, 5)), 6);
    let expected_struct = optional_struct_parent(Some((1, 5)), 6);

    let struct1 = optional_struct_apply(vec!["child.b", "c"], struct1, struct2);
    assert_eq!(struct1, expected_struct);
}

#[test]
fn self_child_is_none() {
    let struct1 = optional_struct_parent(None, 3);
    let struct2 = optional_struct_parent(Some((4, 5)), 6);
    let expected_struct = optional_struct_parent(Some((0, 5)), 6);

    let struct1 = optional_struct_apply(vec!["child.b", "c"], struct1, struct2);
    assert_eq!(struct1, expected_struct);
}

#[test]
fn both_children_are_none() {
    let struct1 = optional_struct_parent(None, 3);
    let struct2 = optional_struct_parent(None, 6);
    let expected_struct = optional_struct_parent(None, 6);

    let struct1 = optional_struct_apply(vec!["child.b", "c"], struct1, struct2);
    assert_eq!(struct1, expected_struct);
}

#[test]
fn no_mask_applied_to_child() {
    let struct1 = optional_struct_parent(Some((1, 2)), 3);
    let struct2 = optional_struct_parent(None, 6);
    let expected_struct = optional_struct_parent(Some((1, 2)), 6);

    let struct1 = optional_struct_apply(vec!["c"], struct1, struct2);
    assert_eq!(struct1, expected_struct);
}

#[test]
fn other_child_is_none() {
    let struct1 = optional_struct_parent(Some((1, 2)), 3);
    let struct2 = optional_struct_parent(None, 6);
    // The target is present and the source absent: the selected field of
    // the target is updated from the default, the rest is kept.
    let expected_struct = optional_struct_parent(Some((1, 0)), 6);

    let struct1 = optional_struct_apply(vec!["child.b", "c"], struct1, struct2);
    assert_eq!(struct1, expected_struct);
}

#[test]
fn nested_optional_struct_full_child_mask() {
    let struct1 = optional_struct_parent(Some((1, 2)), 3);
    let struct2 = optional_struct_parent(None, 6);
    // The whole child is selected: all of it is updated from the default.
    let expected_struct = optional_struct_parent(Some((0, 0)), 6);

    let struct1 = optional_struct_apply(vec!["child", "c"], struct1, struct2);
    assert_eq!(struct1, expected_struct);
}
