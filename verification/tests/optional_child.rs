use fieldmask::{
    Mask,
    MaskInput,
    MessageField,
    MessageInfo,
    ProjectOptions,
    ScalarKind,
    Schema,
    TypeRef,
    UpdateOptions,
    Value,
};

/// `struct Child { a: u32, b: Option<u32>, field_with_default_source: String }`
/// and `struct Parent { child: Option<Child>, c: u32 }`
fn optional_child_schema() -> (Schema, TypeRef) {
    let mut schema = Schema::new();
    let child = schema.add(MessageInfo::new_struct(
        "Child",
        vec![
            MessageField::new("a", TypeRef::Scalar(ScalarKind::U32)),
            MessageField::new(
                "b",
                TypeRef::Optional(Box::new(TypeRef::Scalar(ScalarKind::U32))),
            ),
            MessageField::new("field_with_default_source", TypeRef::Text),
        ],
    ));
    let parent = schema.add(MessageInfo::new_struct(
        "Parent",
        vec![
            MessageField::new("child", TypeRef::Optional(Box::new(TypeRef::Message(child)))),
            MessageField::new("c", TypeRef::Scalar(ScalarKind::U32)),
        ],
    ));
    (schema, TypeRef::Message(parent))
}

fn child_of(a: u128, b: Option<u128>, text: &str) -> Option<Value> {
    Some(Value::Record(vec![
        Value::UInt(a),
        Value::Optional(b.map(|b| Box::new(Value::UInt(b)))),
        Value::Text(text.to_string()),
    ]))
}

fn parent_of(child: Option<Value>, c: u128) -> Value {
    Value::Record(vec![Value::Optional(child.map(Box::new)), Value::UInt(c)])
}

fn optional_child_project(mask: Vec<&str>, source: Value) -> Value {
    let (schema, ty) = optional_child_schema();
    Mask::try_from(&schema, ty, MaskInput(mask))
        .expect("unable to deserialize mask")
        .project(source)
}

fn optional_child_update(
    mask: Vec<&str>,
    target: Value,
    source: Value,
    options: UpdateOptions,
) -> Value {
    let (schema, ty) = optional_child_schema();
    let mut target = target;
    Mask::try_from(&schema, ty.clone(), MaskInput(mask))
        .expect("unable to deserialize mask")
        .update_with_options(&mut target, source, &options);
    Mask::empty(&schema, ty)
        .project_with_options(target, &ProjectOptions::builder().normalize(true).build())
}

#[test]
fn selected_child_field() {
    let source = parent_of(child_of(1, Some(2), "init"), 3);
    let expected = parent_of(child_of(0, Some(2), ""), 3);
    assert_eq!(optional_child_project(vec!["child.b", "c"], source), expected);
}

#[test]
fn selected_child_whole() {
    let source = parent_of(child_of(1, Some(2), "init"), 3);
    let expected = parent_of(child_of(1, Some(2), "init"), 3);
    assert_eq!(optional_child_project(vec!["child", "c"], source), expected);
}

#[test]
fn child_is_none() {
    let source = parent_of(None, 3);
    let expected = parent_of(None, 3);
    assert_eq!(optional_child_project(vec!["child.b", "c"], source), expected);
}

#[test]
fn optional_child_child_not_selected() {
    let source = parent_of(child_of(1, Some(2), "init"), 3);
    let expected = parent_of(None, 3);
    assert_eq!(optional_child_project(vec!["c"], source), expected);
}

#[test]
fn optional_child_regular_mask() {
    let target = optional_child_update(
        vec!["child.b", "c"],
        parent_of(child_of(1, Some(2), "init"), 3),
        parent_of(child_of(4, Some(5), ""), 6),
        UpdateOptions::default(),
    );
    assert_eq!(target, parent_of(child_of(1, Some(5), "init"), 6));
}

#[test]
fn regular_mask_target_child_is_none() {
    let target = optional_child_update(
        vec!["child.b", "c"],
        parent_of(None, 3),
        parent_of(child_of(4, Some(5), ""), 6),
        UpdateOptions::default(),
    );
    assert_eq!(target, parent_of(child_of(0, Some(5), ""), 6));
}

#[test]
fn optional_child_full_child_mask() {
    let target = optional_child_update(
        vec!["child", "c"],
        parent_of(child_of(1, Some(2), "init"), 3),
        parent_of(child_of(4, None, ""), 6),
        UpdateOptions::default(),
    );
    // The child is selected as a whole: it is replaced, defaults included.
    assert_eq!(target, parent_of(child_of(4, None, ""), 6));
}

#[test]
fn full_child_mask_target_is_none() {
    let target = optional_child_update(
        vec!["child", "c"],
        parent_of(None, 3),
        parent_of(child_of(4, Some(5), ""), 6),
        UpdateOptions::default(),
    );
    assert_eq!(target, parent_of(child_of(4, Some(5), ""), 6));
}

#[test]
fn full_child_mask_source_is_none() {
    let target = optional_child_update(
        vec!["child", "c"],
        parent_of(child_of(1, Some(2), "init"), 3),
        parent_of(None, 6),
        UpdateOptions::default(),
    );
    // The whole child is updated from the default, and the default is
    // normalised to absent.
    assert_eq!(target, parent_of(None, 6));
}

#[test]
fn optional_child_full_child_mask_with_replace_message() {
    let target = optional_child_update(
        vec!["child", "c"],
        parent_of(child_of(1, Some(2), "init"), 3),
        parent_of(child_of(4, None, ""), 6),
        UpdateOptions::builder().replace_message(true).build(),
    );
    assert_eq!(target, parent_of(child_of(4, None, ""), 6));
}

#[test]
fn optional_child_explicit_full_child_mask() {
    let target = optional_child_update(
        vec!["child.a", "child.b", "child.field_with_default_source", "c"],
        parent_of(child_of(1, Some(2), "init"), 3),
        parent_of(child_of(4, Some(5), ""), 6),
        UpdateOptions::default(),
    );
    assert_eq!(target, parent_of(child_of(4, Some(5), ""), 6));
}

#[test]
fn explicit_full_child_mask_source_is_none() {
    let target = optional_child_update(
        vec!["child.a", "child.b", "child.field_with_default_source", "c"],
        parent_of(child_of(1, Some(2), "init"), 3),
        parent_of(None, 6),
        UpdateOptions::default(),
    );
    assert_eq!(target, parent_of(None, 6));
}
