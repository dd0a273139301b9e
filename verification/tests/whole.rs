use fieldmask::{
    DeserializeFieldMaskError, DeserializeMaskError, Mask, MaskInput, MessageField, MessageInfo,
    ScalarKind, Schema, TypeRef, UpdateOptions, Value,
};

fn u32_type() -> TypeRef {
    TypeRef::Scalar(ScalarKind::U32)
}

fn text(s: &str) -> Value {
    Value::Text(s.to_string())
}

/// `struct Child { a: u32, b: u32, field_with_default_source: String }`,
/// `enum OneOf { First(Child), Second(String) }` and
/// `struct Parent { child: Child, c: u32, one_of: Option<OneOf>, next: Option<Parent> }`
fn whole_schema() -> (Schema, TypeRef) {
    let mut schema = Schema::new();
    let child = schema.add(MessageInfo::new_struct(
        "Child",
        vec![
            MessageField::new("a", u32_type()),
            MessageField::new("b", u32_type()),
            MessageField::new("field_with_default_source", TypeRef::Text),
        ],
    ));
    let one_of = schema.add(MessageInfo::new_tuple_enum(
        "OneOf",
        vec![
            MessageField::variant("First", TypeRef::Message(child)),
            MessageField::variant("Second", TypeRef::Text),
        ],
    ));
    let parent = one_of + 1;
    schema.add(MessageInfo::new_struct(
        "Parent",
        vec![
            MessageField::new("child", TypeRef::Message(child)),
            MessageField::new("c", u32_type()),
            MessageField::new("one_of", TypeRef::Optional(Box::new(TypeRef::Message(one_of)))),
            MessageField::new("next", TypeRef::Optional(Box::new(TypeRef::Message(parent)))),
        ],
    ));
    assert!(schema.validate());
    (schema, TypeRef::Message(parent))
}

fn child(a: u128, b: u128, s: &str) -> Value {
    Value::Record(vec![Value::UInt(a), Value::UInt(b), text(s)])
}

fn parent(child: Value, c: u128, one_of: Option<Value>, next: Option<Value>) -> Value {
    Value::Record(vec![
        child,
        Value::UInt(c),
        Value::Optional(one_of.map(Box::new)),
        Value::Optional(next.map(Box::new)),
    ])
}

fn mask_of<'a>(schema: &'a Schema, ty: &TypeRef, paths: Vec<&str>) -> Mask<'a> {
    Mask::try_from(schema, ty.clone(), MaskInput(paths)).expect("unable to deserialize mask")
}

#[test]
fn a_field_selected_as_a_whole_stays_whole() {
    let (schema, ty) = whole_schema();
    let whole = mask_of(&schema, &ty, vec!["child"]);
    assert!(mask_of(&schema, &ty, vec!["child", "child.b"]).equals(&whole));
    assert!(mask_of(&schema, &ty, vec!["child.b", "child"]).equals(&whole));
    assert!(!mask_of(&schema, &ty, vec!["child.b"]).equals(&whole));

    let value = parent(child(1, 2, "init"), 3, None, None);
    let kept = mask_of(&schema, &ty, vec!["child", "child.b"]).project(value);
    assert_eq!(kept, parent(child(1, 2, "init"), 0, None, None));
}

#[test]
fn an_inclusion_never_removes_a_selection() {
    let (schema, ty) = whole_schema();
    let mut mask = mask_of(&schema, &ty, vec!["child"]);
    let before = mask.project(parent(child(1, 2, "init"), 3, None, None));
    assert!(mask.include_field(&["child", "b"]).is_ok());
    assert!(mask.include_field(&["c"]).is_ok());
    let after = mask.project(parent(child(1, 2, "init"), 3, None, None));
    assert_eq!(before, parent(child(1, 2, "init"), 0, None, None));
    assert_eq!(after, parent(child(1, 2, "init"), 3, None, None));
}

#[test]
fn a_field_selected_as_a_whole_is_replaced_defaults_included() {
    let (schema, ty) = whole_schema();
    let mut target = parent(child(1, 2, "init"), 3, None, None);
    let source = parent(child(4, 0, ""), 6, None, None);
    mask_of(&schema, &ty, vec!["child"]).update(&mut target, source);
    assert_eq!(target, parent(child(4, 0, ""), 3, None, None));
}

#[test]
fn the_bare_name_of_a_union_selects_every_variant() {
    let (schema, ty) = whole_schema();
    let mask = mask_of(&schema, &ty, vec!["one_of"]);
    let first = || Value::Variant(0, Box::new(child(1, 0, "x")));
    let second = || Value::Variant(1, Box::new(text("s")));

    let kept = mask.project(parent(child(1, 2, "init"), 3, Some(first()), None));
    assert_eq!(kept, parent(child(0, 0, ""), 0, Some(first()), None));
    let kept = mask.project(parent(child(1, 2, "init"), 3, Some(second()), None));
    assert_eq!(kept, parent(child(0, 0, ""), 0, Some(second()), None));

    // Another variant in the source: the target takes it.
    let mut target = parent(child(1, 2, "init"), 3, Some(first()), None);
    mask.update(&mut target, parent(child(9, 9, "s"), 9, Some(second()), None));
    assert_eq!(target, parent(child(1, 2, "init"), 3, Some(second()), None));

    // The same variant: the payloads are updated, defaults included.
    let mut target = parent(child(1, 2, "init"), 3, Some(first()), None);
    let source = Value::Variant(0, Box::new(child(0, 7, "")));
    mask.update(&mut target, parent(child(9, 9, "s"), 9, Some(source), None));
    let expected = Value::Variant(0, Box::new(child(0, 7, "")));
    assert_eq!(target, parent(child(1, 2, "init"), 3, Some(expected), None));

    // No variant in the source: the payload of the target is updated from
    // the default.
    let mut target = parent(child(1, 2, "init"), 3, Some(first()), None);
    mask.update(&mut target, parent(child(9, 9, "s"), 9, None, None));
    let cleared = Value::Variant(0, Box::new(child(0, 0, "")));
    assert_eq!(target, parent(child(1, 2, "init"), 3, Some(cleared), None));
}

#[test]
fn a_type_that_holds_itself_is_selected_as_a_whole() {
    let (schema, ty) = whole_schema();
    let inner = || parent(child(1, 2, "in"), 3, None, Some(parent(child(4, 5, "x"), 6, None, None)));

    // The empty path and the mask that selects everything.
    let everything = mask_of(&schema, &ty, vec![""]);
    assert!(everything.equals(&Mask::full(&schema, ty.clone())));
    assert_eq!(everything.project(inner()), inner());

    // A field of the type itself, selected as a whole.
    let mask = mask_of(&schema, &ty, vec!["next"]);
    let value = parent(child(7, 7, "t"), 7, None, Some(inner()));
    assert_eq!(mask.project(value), parent(child(0, 0, ""), 0, None, Some(inner())));

    // An absent target takes the source; a present one is updated.
    let mut target = parent(child(7, 7, "t"), 7, None, None);
    mask.update(&mut target, parent(child(0, 0, ""), 0, None, Some(inner())));
    assert_eq!(target, parent(child(7, 7, "t"), 7, None, Some(inner())));

    let mut target = parent(child(7, 7, "t"), 7, None, Some(inner()));
    let source = parent(child(8, 0, ""), 0, None, None);
    mask.update(&mut target, parent(child(0, 0, ""), 0, None, Some(source)));
    // What the target holds and the source does not is updated from the
    // default.
    let cleared = parent(child(0, 0, ""), 0, None, None);
    let updated = parent(child(8, 0, ""), 0, None, Some(cleared));
    assert_eq!(target, parent(child(7, 7, "t"), 7, None, Some(updated)));

    // By no path at all, an update selects everything too.
    let mut target = parent(child(1, 2, "in"), 3, None, None);
    let source = parent(child(0, 1, ""), 0, None, None);
    let options = UpdateOptions::default();
    mask_of(&schema, &ty, vec![]).update_with_options(&mut target, source, &options);
    assert_eq!(target, parent(child(0, 1, ""), 0, None, None));
}

#[test]
fn the_path_that_fails_is_named() {
    let (schema, ty) = whole_schema();
    let failure = match Mask::try_from_entries(&schema, ty, &vec!["c", "child.a", "child.x", "y"]) {
        Ok(_) => panic!("the paths should not all select something"),
        Err(failure) => failure,
    };
    assert_eq!(
        failure,
        DeserializeFieldMaskError {
            index: 2,
            entry: "child.x".to_string(),
            err: DeserializeMaskError::InvalidField {
                field: "child".to_string(),
                err: Box::new(DeserializeMaskError::FieldNotFound {
                    field: "x".to_string(),
                    type_ident: "Child".to_string(),
                }),
            },
        },
    );
}

#[test]
fn the_keys_of_a_map_differ() {
    let schema = Schema::new();
    let ty = TypeRef::Mapping(Box::new(TypeRef::Text), Box::new(u32_type()));
    let entry = |key: &str, value: u128| (text(key), Value::UInt(value));
    assert!(schema.conforms(&Value::Mapping(vec![entry("a", 1), entry("b", 1)]), &ty));
    assert!(!schema.conforms(&Value::Mapping(vec![entry("a", 1), entry("b", 2), entry("a", 3)]), &ty));
}

#[test]
fn values_are_compared_in_depth() {
    let a = parent(child(1, 2, "x"), 3, Some(Value::Variant(1, Box::new(text("s")))), None);
    let b = parent(child(1, 2, "x"), 3, Some(Value::Variant(1, Box::new(text("s")))), None);
    let c = parent(child(1, 2, "x"), 3, Some(Value::Variant(1, Box::new(text("t")))), None);
    assert!(a.equals(&b));
    assert!(!a.equals(&c));
    assert!(!a.equals(&Value::UInt(1)));
    let map = |v: u8| Value::Mapping(vec![(Value::Bytes(vec![1, v]), Value::List(vec![Value::Char('x')]))]);
    assert!(map(2).equals(&map(2)));
    assert!(!map(2).equals(&map(3)));
}

#[test]
fn every_field_one_by_one_is_everything() {
    let mut schema = Schema::new();
    let flat = schema.add(MessageInfo::new_struct(
        "Flat",
        vec![MessageField::new("a", u32_type()), MessageField::new("b", u32_type())],
    ));
    let ty = TypeRef::Message(flat);
    let full = Mask::full(&schema, ty.clone());
    let mut built = mask_of(&schema, &ty, vec!["a", "b"]);
    assert!(full.equals(&built));
    assert!(built.equals(&full));
    assert!(mask_of(&schema, &ty, vec!["b", "a"]).equals(&full));
    assert!(mask_of(&schema, &ty, vec![""]).equals(&full));
    assert!(!mask_of(&schema, &ty, vec!["a"]).equals(&full));
    assert!(!mask_of(&schema, &ty, vec![]).equals(&full));
    assert!(!mask_of(&schema, &ty, vec![]).equals(&mask_of(&schema, &ty, vec!["a"])));

    // Any further path leaves it as it is.
    assert!(built.include_field(&["a"]).is_ok());
    assert!(built.include_field(&[]).is_ok());
    assert!(built.equals(&full));
    // The union with it is it.
    assert!(mask_of(&schema, &ty, vec!["a"]).union(&mask_of(&schema, &ty, vec!["b"])).equals(&full));
}

#[test]
fn every_field_at_every_depth_is_everything() {
    let (schema, ty) = whole_schema();
    let whole_child = mask_of(&schema, &ty, vec!["child"]);
    let by_fields =
        mask_of(&schema, &ty, vec!["child.a", "child.field_with_default_source", "child.b"]);
    assert!(by_fields.equals(&whole_child));

    let everything = mask_of(
        &schema,
        &ty,
        vec!["next", "one_of.first", "child.a", "c", "child.b", "one_of.second",
             "child.field_with_default_source"],
    );
    assert!(everything.equals(&Mask::full(&schema, ty.clone())));
    assert!(everything.equals(&mask_of(&schema, &ty, vec![""])));
}

#[test]
fn the_failure_of_a_list_of_paths_names_the_path() {
    let (schema, ty) = whole_schema();
    let failure = match Mask::try_from_entries(&schema, ty, &vec!["c", "child.x"]) {
        Ok(_) => panic!("the paths should not all select something"),
        Err(failure) => failure,
    };
    assert_eq!(
        failure.to_string(),
        "can not parse fieldmask \"child.x\"; error in field \"child\":\n\ttype `Child` has no field named \"x\"",
    );
}
