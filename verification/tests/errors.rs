use fieldmask::{
    DeserializeMaskError,
    Mask,
    MaskInput,
    MessageField,
    MessageInfo,
    ScalarKind,
    Schema,
    TypeRef,
};

/// `struct Inner { leaf: u32 }`, `struct Middle { inner: Inner }` and
/// `struct Outer { middle: Option<Middle>, items: Vec<u8> }`
fn nesting_schema() -> (Schema, TypeRef) {
    let mut schema = Schema::new();
    let inner = schema.add(MessageInfo::new_struct(
        "Inner",
        vec![MessageField::new("leaf", TypeRef::Scalar(ScalarKind::U32))],
    ));
    let middle = schema.add(MessageInfo::new_struct(
        "Middle",
        vec![MessageField::new("inner", TypeRef::Message(inner))],
    ));
    let outer = schema.add(MessageInfo::new_struct(
        "Outer",
        vec![
            MessageField::new("middle", TypeRef::Optional(Box::new(TypeRef::Message(middle)))),
            MessageField::new(
                "items",
                TypeRef::List(Box::new(TypeRef::Scalar(ScalarKind::U8))),
            ),
        ],
    ));
    (schema, TypeRef::Message(outer))
}

fn failure(entry: &str) -> DeserializeMaskError {
    let (schema, ty) = nesting_schema();
    match Mask::try_from(&schema, ty, MaskInput(vec![entry])) {
        Ok(_) => panic!("the path should select nothing"),
        Err(error) => error,
    }
}

#[test]
fn unknown_field_is_not_found() {
    let error = failure("nope");
    assert_eq!(
        error,
        DeserializeMaskError::FieldNotFound {
            field: "nope".to_string(),
            type_ident: "Outer".to_string(),
        },
    );
    assert_eq!(error.to_string(), "type `Outer` has no field named \"nope\"");
}

#[test]
fn failure_inside_a_field_names_the_field() {
    let error = failure("middle.nope");
    assert_eq!(
        error,
        DeserializeMaskError::InvalidField {
            field: "middle".to_string(),
            err: Box::new(DeserializeMaskError::FieldNotFound {
                field: "nope".to_string(),
                type_ident: "Middle".to_string(),
            }),
        },
    );
}

#[test]
fn each_level_of_a_failure_is_indented_by_one_tab() {
    let error = failure("middle.inner.leaf.deeper");
    assert_eq!(
        error.to_string(),
        "error in field \"middle\":\n\
         \terror in field \"inner\":\n\
         \t\terror in field \"leaf\":\n\
         \t\t\ttype `u32` has no field named \"deeper\"",
    );
}

#[test]
fn the_location_of_a_failure_is_a_dotted_path() {
    assert_eq!(failure("nope").location(), "nope");
    assert_eq!(failure("middle.inner.leaf.deeper").location(), "middle.inner.leaf.deeper");
    assert_eq!(failure("middle.inner.nope.deeper").location(), "middle.inner.nope");
}

#[test]
fn a_repeated_field_has_no_fields() {
    assert_eq!(
        failure("items.first").to_string(),
        "error in field \"items\":\n\ttype `Vec` has no field named \"first\"",
    );
}

#[test]
fn an_empty_segment_inside_a_path_names_no_field() {
    assert_eq!(
        failure("middle.").to_string(),
        "error in field \"middle\":\n\ttype `Middle` has no field named \"\"",
    );
    assert_eq!(failure(".middle").to_string(), "type `Outer` has no field named \"\"");
}

#[test]
fn field_names_are_matched_with_their_case() {
    assert_eq!(failure("Middle").to_string(), "type `Outer` has no field named \"Middle\"");
}

#[test]
fn a_failed_inclusion_leaves_the_mask_as_it_was() {
    let (schema, ty) = nesting_schema();
    let mut mask = Mask::try_from(&schema, ty, MaskInput(vec!["items"]))
        .expect("unable to deserialize mask");
    let before = mask.duplicate();

    assert!(mask.include_field(&["middle", "inner", "nope"]).is_err());
    assert!(mask.equals(&before));

    assert!(mask.include_field(&["middle", "inner"]).is_ok());
    assert!(!mask.equals(&before));
}

#[test]
fn the_first_path_that_fails_is_reported() {
    let (schema, ty) = nesting_schema();
    let error = match Mask::try_from(&schema, ty, MaskInput(vec!["items", "x", "y"])) {
        Ok(_) => panic!("the paths should not all select something"),
        Err(error) => error,
    };
    assert_eq!(error.to_string(), "type `Outer` has no field named \"x\"");
}
