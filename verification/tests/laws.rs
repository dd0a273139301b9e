use fieldmask::{
    Mask,
    MaskInput,
    MessageField,
    MessageInfo,
    ProjectOptions,
    ScalarKind,
    Schema,
    TypeRef,
    UpdateOptions,
    Value,
};

fn u32_type() -> TypeRef {
    TypeRef::Scalar(ScalarKind::U32)
}

fn optional(ty: TypeRef) -> TypeRef {
    TypeRef::Optional(Box::new(ty))
}

/// `struct Leafy { n: u32, s: String }`, `enum Choice { Left(Leafy), Right(u32) }`
/// and `struct Top { leafy: Option<Leafy>, choice: Option<Choice>, m: Option<u32>,
/// #[flatten] inline: Leafy }`
fn law_schema() -> (Schema, TypeRef) {
    let mut schema = Schema::new();
    let leafy = schema.add(MessageInfo::new_struct(
        "Leafy",
        vec![MessageField::new("n", u32_type()), MessageField::new("s", TypeRef::Text)],
    ));
    let choice = schema.add(MessageInfo::new_tuple_enum(
        "Choice",
        vec![
            MessageField::variant("Left", TypeRef::Message(leafy)),
            MessageField::variant("Right", u32_type()),
        ],
    ));
    let top = schema.add(MessageInfo::new_struct(
        "Top",
        vec![
            MessageField::new("leafy", optional(TypeRef::Message(leafy))),
            MessageField::new("choice", optional(TypeRef::Message(choice))),
            MessageField::new("m", optional(u32_type())),
            MessageField::flatten("inline", TypeRef::Message(leafy)),
        ],
    ));
    assert!(schema.validate());
    (schema, TypeRef::Message(top))
}

fn leafy(n: u128, s: &str) -> Value {
    Value::Record(vec![Value::UInt(n), Value::Text(s.to_string())])
}

fn some(value: Value) -> Value {
    Value::Optional(Some(Box::new(value)))
}

fn samples() -> Vec<Value> {
    let none = || Value::Optional(None);
    vec![
        Value::Record(vec![none(), none(), none(), leafy(0, "")]),
        Value::Record(vec![some(leafy(0, "")), none(), some(Value::UInt(0)), leafy(3, "x")]),
        Value::Record(vec![
            some(leafy(1, "a")),
            some(Value::Variant(0, Box::new(leafy(0, "")))),
            some(Value::UInt(4)),
            leafy(0, "y"),
        ]),
        Value::Record(vec![
            some(leafy(0, "b")),
            some(Value::Variant(1, Box::new(Value::UInt(9)))),
            none(),
            leafy(5, ""),
        ]),
    ]
}

fn masks() -> Vec<Vec<&'static str>> {
    vec![
        vec![],
        vec!["leafy"],
        vec!["leafy.n", "m"],
        vec!["choice.left.s", "n"],
        vec!["choice.right", "choice.left", "s"],
        vec!["leafy.n", "leafy.s", "choice.left.n", "choice.left.s", "choice.right", "m", "n", "s"],
    ]
}

fn copy_of(schema: &Schema, ty: &TypeRef, k: usize) -> Value {
    let value = samples().remove(k);
    assert!(schema.conforms(&value, ty));
    value
}

#[test]
fn projecting_twice_is_projecting_once() {
    let (schema, ty) = law_schema();
    for paths in masks() {
        let mask = Mask::try_from(&schema, ty.clone(), MaskInput(paths))
            .expect("unable to deserialize mask");
        for normalize in [false, true] {
            let options = ProjectOptions::builder().normalize(normalize).build();
            for k in 0..samples().len() {
                let once = mask.project_with_options(copy_of(&schema, &ty, k), &options);
                let again = mask.project_with_options(copy_of(&schema, &ty, k), &options);
                let twice = mask.project_with_options(again, &options);
                assert_eq!(twice, once);
            }
        }
    }
}

#[test]
fn the_mask_that_selects_everything_keeps_the_value_up_to_normalisation() {
    let (schema, ty) = law_schema();
    let full = Mask::full(&schema, ty.clone());
    let empty = Mask::empty(&schema, ty.clone());
    let normal = ProjectOptions::builder().normalize(true).build();
    for k in 0..samples().len() {
        let kept = full.project(copy_of(&schema, &ty, k));
        assert_eq!(
            empty.project_with_options(kept, &normal),
            empty.project_with_options(copy_of(&schema, &ty, k), &normal),
        );
    }
    // A value without an optional that holds a default is kept as it is.
    assert_eq!(full.project(copy_of(&schema, &ty, 3)), copy_of(&schema, &ty, 3));
    // An optional record that holds the default becomes absent.
    let collapsed = Value::Record(vec![
        Value::Optional(None),
        Value::Optional(None),
        some(Value::UInt(0)),
        leafy(3, "x"),
    ]);
    assert_eq!(full.project(copy_of(&schema, &ty, 1)), collapsed);
}

#[test]
fn no_paths_give_the_mask_that_selects_nothing() {
    let (schema, ty) = law_schema();
    let built = Mask::try_from(&schema, ty.clone(), MaskInput(vec![]))
        .expect("unable to deserialize mask");
    assert!(built.is_empty());
    assert!(built.equals(&Mask::empty(&schema, ty.clone())));
    assert!(!built.equals(&Mask::full(&schema, ty.clone())));

    // For a leaf the two masks are one.
    let leaf = Mask::try_from(&schema, u32_type(), MaskInput(vec![]))
        .expect("unable to deserialize mask");
    assert!(leaf.equals(&Mask::full(&schema, u32_type())));

    // At the top level an update takes it as the mask that selects everything.
    let options = UpdateOptions::default();
    for k in 0..samples().len() {
        let mut by_nothing = copy_of(&schema, &ty, 2);
        built.update_with_options(&mut by_nothing, copy_of(&schema, &ty, k), &options);
        let mut by_everything = copy_of(&schema, &ty, 2);
        Mask::full(&schema, ty.clone()).update_with_options(
            &mut by_everything,
            copy_of(&schema, &ty, k),
            &options,
        );
        assert_eq!(by_nothing, by_everything);
    }
}

#[test]
fn the_empty_path_selects_everything() {
    let (schema, ty) = law_schema();
    let full = Mask::full(&schema, ty.clone());
    for paths in [vec![""], vec!["leafy.n", ""], vec!["", "leafy.n"], vec!["", ""]] {
        let built = Mask::try_from(&schema, ty.clone(), MaskInput(paths))
            .expect("unable to deserialize mask");
        assert!(built.equals(&full));
    }
    let mut mask = Mask::empty(&schema, ty.clone());
    assert!(mask.include_field(&[]).is_ok());
    assert!(mask.equals(&full));
}

#[test]
fn the_order_of_the_paths_does_not_matter() {
    let (schema, ty) = law_schema();
    let orders = [
        vec!["leafy.n", "choice.left.s", "m", "choice.right", "leafy"],
        vec!["leafy", "choice.right", "m", "choice.left.s", "leafy.n"],
        vec!["m", "leafy", "leafy.n", "choice.right", "choice.left.s"],
        vec!["choice.left.s", "leafy.n", "leafy", "m", "choice.right"],
    ];
    let first = Mask::try_from(&schema, ty.clone(), MaskInput(orders[0].clone()))
        .expect("unable to deserialize mask");
    for order in orders {
        let other = Mask::try_from(&schema, ty.clone(), MaskInput(order))
            .expect("unable to deserialize mask");
        assert!(other.equals(&first));
    }
    // A path twice is the path once.
    let twice = Mask::try_from(&schema, ty.clone(), MaskInput(vec!["m", "m"]))
        .expect("unable to deserialize mask");
    let once =
        Mask::try_from(&schema, ty.clone(), MaskInput(vec!["m"])).expect("unable to deserialize mask");
    assert!(twice.equals(&once));
    // A list that fails, fails in every order.
    assert!(Mask::try_from(&schema, ty.clone(), MaskInput(vec!["m", "zz"])).is_err());
    assert!(Mask::try_from(&schema, ty, MaskInput(vec!["zz", "m"])).is_err());
}

#[test]
fn an_update_leaves_what_the_mask_does_not_select() {
    let (schema, ty) = law_schema();
    let mask = Mask::try_from(&schema, ty.clone(), MaskInput(vec!["m"]))
        .expect("unable to deserialize mask");
    let options = UpdateOptions::default();
    for k in 0..samples().len() {
        let mut target = copy_of(&schema, &ty, 2);
        mask.update_with_options(&mut target, copy_of(&schema, &ty, k), &options);
        let before = match copy_of(&schema, &ty, 2) {
            Value::Record(fields) => fields,
            _ => unreachable!(),
        };
        let after = match target {
            Value::Record(fields) => fields,
            _ => unreachable!(),
        };
        // The slots of `leafy` and `choice` are absent.
        assert_eq!(after[0], before[0]);
        assert_eq!(after[1], before[1]);
    }
}

#[test]
fn the_union_of_two_masks_selects_what_either_selects() {
    let (schema, ty) = law_schema();
    let build = |paths: Vec<&'static str>| {
        Mask::try_from(&schema, ty.clone(), MaskInput(paths)).expect("unable to deserialize mask")
    };
    let left = build(vec!["leafy.n", "choice.left.s"]);
    let right = build(vec!["m", "leafy.s", "choice.right"]);
    let both = build(vec!["leafy.n", "choice.left.s", "m", "leafy.s", "choice.right"]);

    assert!(left.union(&right).equals(&both));
    assert!(right.union(&left).equals(&both));
    assert!(left.union(&left).equals(&left));
    assert!(left.union(&Mask::empty(&schema, ty.clone())).equals(&left));
    assert!(left.union(&Mask::full(&schema, ty.clone())).equals(&Mask::full(&schema, ty.clone())));
}

#[test]
fn a_copy_of_a_value_is_the_value() {
    let (schema, ty) = law_schema();
    for k in 0..samples().len() {
        let value = copy_of(&schema, &ty, k);
        assert_eq!(value.clone(), value);
        assert_eq!(value.duplicate(), value);
    }
    let other = Value::Mapping(vec![(Value::Bytes(vec![1, 2]), Value::List(vec![Value::Char('x')]))]);
    assert_eq!(other.duplicate(), other);
}
