use fieldmask::{
    Mask,
    MaskInput,
    MessageField,
    MessageInfo,
    ProjectOptions,
    ScalarKind,
    Schema,
    TypeRef,
    UpdateOptions,
    Value,
};

/// `struct Child { a: u32, b: u32, field_with_default_source: String }` and
/// `struct Parent { child: Child, c: u32 }`
fn nested_schema() -> (Schema, TypeRef) {
    let mut schema = Schema::new();
    let child = schema.add(MessageInfo::new_struct(
        "Child",
        vec![
            MessageField::new("a", TypeRef::Scalar(ScalarKind::U32)),
            MessageField::new("b", TypeRef::Scalar(ScalarKind::U32)),
            MessageField::new("field_with_default_source", TypeRef::Text),
        ],
    ));
    let parent = schema.add(MessageInfo::new_struct(
        "Parent",
        vec![
            MessageField::new("child", TypeRef::Message(child)),
            MessageField::new("c", TypeRef::Scalar(ScalarKind::U32)),
        ],
    ));
    (schema, TypeRef::Message(parent))
}

fn nested_parent(a: u128, b: u128, text: &str, c: u128) -> Value {
    Value::Record(vec![
        Value::Record(vec![Value::UInt(a), Value::UInt(b), Value::Text(text.to_string())]),
        Value::UInt(c),
    ])
}

fn nested_project(mask: Vec<&str>, source: Value) -> Value {
    let (schema, ty) = nested_schema();
    Mask::try_from(&schema, ty, MaskInput(mask))
        .expect("unable to deserialize mask")
        .project(source)
}

fn nested_update(mask: Vec<&str>, target: Value, source: Value, options: UpdateOptions) -> Value {
    let (schema, ty) = nested_schema();
    let mut target = target;
    Mask::try_from(&schema, ty.clone(), MaskInput(mask))
        .expect("unable to deserialize mask")
        .update_with_options(&mut target, source, &options);
    Mask::empty(&schema, ty).project_with_options(target, &ProjectOptions::builder().normalize(true).build())
}

#[test]
fn nested_regular_mask() {
    let actual = nested_project(vec!["child.b", "c"], nested_parent(1, 2, "init", 3));
    assert_eq!(actual, nested_parent(0, 2, "", 3));

    let target = nested_update(
        vec!["child.b", "c"],
        nested_parent(1, 2, "init", 3),
        nested_parent(4, 5, "", 6),
        UpdateOptions::default(),
    );
    assert_eq!(target, nested_parent(1, 5, "init", 6));
}

#[test]
fn nested_full_child_mask() {
    let actual = nested_project(vec!["child", "c"], nested_parent(1, 2, "init", 3));
    assert_eq!(actual, nested_parent(1, 2, "init", 3));

    // The child is selected as a whole: it is replaced, defaults included.
    let target = nested_update(
        vec!["child", "c"],
        nested_parent(1, 2, "init", 3),
        nested_parent(4, 5, "", 6),
        UpdateOptions::default(),
    );
    assert_eq!(target, nested_parent(4, 5, "", 6));
}

#[test]
fn nested_explicit_full_child_mask() {
    let mask = vec!["child.a", "child.b", "child.field_with_default_source", "c"];
    let actual = nested_project(mask.clone(), nested_parent(1, 2, "init", 3));
    assert_eq!(actual, nested_parent(1, 2, "init", 3));

    let target = nested_update(
        mask,
        nested_parent(1, 2, "init", 3),
        nested_parent(4, 5, "", 6),
        UpdateOptions::default(),
    );
    assert_eq!(target, nested_parent(4, 5, "", 6));
}

#[test]
fn nested_full_child_mask_with_replace_message() {
    let options = UpdateOptions::builder().replace_message(true).build();
    let target = nested_update(
        vec!["child", "c"],
        nested_parent(1, 2, "init", 3),
        nested_parent(4, 5, "", 6),
        options,
    );
    assert_eq!(target, nested_parent(4, 5, "", 6));
}
