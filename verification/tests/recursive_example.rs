use fieldmask::{
    Mask,
    MaskInput,
    MessageField,
    MessageInfo,
    ScalarKind,
    Schema,
    TypeRef,
    UpdateOptions,
    Value,
};

/// `struct NodeMetadata { created_at: String, modified_at: String }`,
/// `struct RecursiveNodeA { id: String, data: String,
/// child: Option<Box<RecursiveNodeB>>, metadata: NodeMetadata }`, the same
/// for `RecursiveNodeB` with a child of type `RecursiveNodeA`, and
/// `struct TreeStructure { root: RecursiveNodeA, description: String, nodes_count: u32 }`
fn tree_schema() -> (Schema, TypeRef) {
    let mut schema = Schema::new();
    let metadata = schema.add(MessageInfo::new_struct(
        "NodeMetadata",
        vec![
            MessageField::new("created_at", TypeRef::Text),
            MessageField::new("modified_at", TypeRef::Text),
        ],
    ));
    let node_a = metadata + 1;
    let node_b = metadata + 2;
    let node = |ident: &str, other: usize| {
        MessageInfo::new_struct(
            ident,
            vec![
                MessageField::new("id", TypeRef::Text),
                MessageField::new("data", TypeRef::Text),
                MessageField::new("child", TypeRef::Optional(Box::new(TypeRef::Message(other)))),
                MessageField::new("metadata", TypeRef::Message(metadata)),
            ],
        )
    };
    assert_eq!(schema.add(node("RecursiveNodeA", node_b)), node_a);
    assert_eq!(schema.add(node("RecursiveNodeB", node_a)), node_b);
    let tree = schema.add(MessageInfo::new_struct(
        "TreeStructure",
        vec![
            MessageField::new("root", TypeRef::Message(node_a)),
            MessageField::new("description", TypeRef::Text),
            MessageField::new("nodes_count", TypeRef::Scalar(ScalarKind::U32)),
        ],
    ));
    assert!(schema.validate());
    (schema, TypeRef::Message(tree))
}

fn text(s: &str) -> Value {
    Value::Text(s.to_string())
}

fn metadata(created_at: &str, modified_at: &str) -> Value {
    Value::Record(vec![text(created_at), text(modified_at)])
}

fn node(id: &str, data: &str, child: Option<Value>, metadata: Value) -> Value {
    Value::Record(vec![text(id), text(data), Value::Optional(child.map(Box::new)), metadata])
}

fn tree(root: Value, description: &str, nodes_count: u128) -> Value {
    Value::Record(vec![root, text(description), Value::UInt(nodes_count)])
}

fn create_test_tree() -> Value {
    tree(
        node(
            "root",
            "root data",
            Some(node(
                "child1",
                "child1 data",
                Some(node(
                    "grandchild1",
                    "grandchild1 data",
                    None,
                    metadata("2023-01-03", "2023-01-03"),
                )),
                metadata("2023-01-02", "2023-01-02"),
            )),
            metadata("2023-01-01", "2023-01-01"),
        ),
        "A recursive tree example",
        3,
    )
}

fn create_base_tree_with(root_id: &str, child: Option<Value>, root_modified_at: &str) -> Value {
    tree(
        node(root_id, "root data", child, metadata("2023-01-01", root_modified_at)),
        "Original tree",
        2,
    )
}

fn base_child() -> Value {
    node("child1", "child1 data", None, metadata("2023-01-02", "2023-01-02"))
}

fn create_base_tree() -> Value {
    create_base_tree_with("root", Some(base_child()), "2023-01-01")
}

fn updated_child() -> Value {
    node(
        "updated-child1",
        "updated child1 data",
        Some(node(
            "new-grandchild",
            "new grandchild data",
            None,
            metadata("2023-02-03", "2023-02-03"),
        )),
        metadata("2023-02-02", "2023-02-02"),
    )
}

fn create_updated_tree() -> Value {
    tree(
        node(
            "updated-root",
            "updated root data",
            Some(updated_child()),
            metadata("2023-02-01", "2023-02-01"),
        ),
        "Updated tree",
        3,
    )
}

fn tree_project(mask: Vec<&str>) -> Value {
    let (schema, ty) = tree_schema();
    Mask::try_from(&schema, ty, MaskInput(mask))
        .expect("unable to deserialize mask")
        .project(create_test_tree())
}

fn tree_update(mask: Vec<&str>) -> Value {
    let (schema, ty) = tree_schema();
    let mut target = create_base_tree();
    let options = UpdateOptions::default();
    Mask::try_from(&schema, ty, MaskInput(mask))
        .expect("unable to deserialize mask")
        .update_with_options(&mut target, create_updated_tree(), &options);
    target
}

#[test]
fn project_only_root_id() {
    let expected = tree(node("root", "", None, metadata("", "")), "", 0);
    assert_eq!(tree_project(vec!["root.id"]), expected);
}

#[test]
fn project_nested_child() {
    let expected = tree(
        node(
            "",
            "",
            Some(node(
                "child1",
                "child1 data",
                Some(node(
                    "grandchild1",
                    "grandchild1 data",
                    None,
                    metadata("2023-01-03", "2023-01-03"),
                )),
                metadata("2023-01-02", "2023-01-02"),
            )),
            metadata("", ""),
        ),
        "",
        0,
    );
    assert_eq!(tree_project(vec!["root.child"]), expected);
}

#[test]
fn project_nested_fields() {
    let mask = vec!["root.id", "root.child.id", "root.child.child.id", "description"];
    let expected = tree(
        node(
            "root",
            "",
            Some(node(
                "child1",
                "",
                Some(node("grandchild1", "", None, metadata("", ""))),
                metadata("", ""),
            )),
            metadata("", ""),
        ),
        "A recursive tree example",
        0,
    );
    assert_eq!(tree_project(mask), expected);
}

#[test]
fn project_nested_metadata() {
    let mask = vec!["root.metadata", "root.child.metadata.created_at"];
    let expected = tree(
        node(
            "",
            "",
            Some(node("", "", None, metadata("2023-01-02", ""))),
            metadata("2023-01-01", "2023-01-01"),
        ),
        "",
        0,
    );
    assert_eq!(tree_project(mask), expected);
}

#[test]
fn update_root_id_only() {
    let expected = create_base_tree_with("updated-root", Some(base_child()), "2023-01-01");
    assert_eq!(tree_update(vec!["root.id"]), expected);
}

#[test]
fn update_nested_child() {
    let expected = create_base_tree_with("root", Some(updated_child()), "2023-01-01");
    assert_eq!(tree_update(vec!["root.child"]), expected);
}

#[test]
fn update_metadata_only() {
    let expected = create_base_tree_with("root", Some(base_child()), "2023-02-01");
    assert_eq!(tree_update(vec!["root.metadata.modified_at"]), expected);
}
