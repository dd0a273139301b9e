use fieldmask::declare::{
    assert_no_attr, default_number, is_flatten, normalize_some_default, type_ref,
    variant_payload, DeclarationError, Mark, TypeExpr, UnitVariant,
};
use fieldmask::{ScalarKind, TypeRef};

fn named(name: &str) -> TypeExpr {
    TypeExpr { name: name.to_string(), args: vec![] }
}

fn applied(name: &str, args: Vec<TypeExpr>) -> TypeExpr {
    TypeExpr { name: name.to_string(), args }
}

#[test]
fn markers_of_a_field() {
    assert_eq!(is_flatten(&vec![], false), Ok(false));
    assert_eq!(is_flatten(&vec![Mark::Flatten], false), Ok(true));
    assert_eq!(is_flatten(&vec![], true), Ok(true));
    assert_eq!(
        is_flatten(&vec![Mark::Flatten, Mark::Flatten], false),
        Err(DeclarationError::DuplicatedFlatten),
    );
    assert_eq!(is_flatten(&vec![Mark::Flatten], true), Err(DeclarationError::DuplicatedFlatten));
    assert_eq!(
        is_flatten(&vec![Mark::Flatten, Mark::Other, Mark::Flatten], false),
        Err(DeclarationError::InvalidMeta),
    );
    assert_eq!(
        is_flatten(&vec![Mark::NormalizeSomeDefault], false),
        Err(DeclarationError::InvalidMeta),
    );
}

#[test]
fn markers_of_an_enumeration() {
    assert_eq!(normalize_some_default(&vec![]), Ok(false));
    assert_eq!(normalize_some_default(&vec![Mark::NormalizeSomeDefault]), Ok(true));
    assert_eq!(
        normalize_some_default(&vec![Mark::NormalizeSomeDefault, Mark::NormalizeSomeDefault]),
        Err(DeclarationError::DuplicatedNormalizeSomeDefault),
    );
    assert_eq!(normalize_some_default(&vec![Mark::Flatten]), Err(DeclarationError::InvalidMeta));
}

#[test]
fn markers_where_none_is_taken() {
    assert_eq!(assert_no_attr(&vec![]), Ok(()));
    assert_eq!(assert_no_attr(&vec![Mark::Flatten]), Err(DeclarationError::InvalidMeta));
}

#[test]
fn type_expressions() {
    let names = vec!["Child".to_string(), "Parent".to_string()];
    assert_eq!(type_ref(&named("u32"), &names), Ok(TypeRef::Scalar(ScalarKind::U32)));
    assert_eq!(type_ref(&named("isize"), &names), Ok(TypeRef::Scalar(ScalarKind::Isize)));
    assert_eq!(type_ref(&named("String"), &names), Ok(TypeRef::Text));
    assert_eq!(type_ref(&named("Bytes"), &names), Ok(TypeRef::Bytes));
    assert_eq!(type_ref(&named("Parent"), &names), Ok(TypeRef::Message(1)));
    assert_eq!(type_ref(&named("Stranger"), &names), Err(DeclarationError::UnknownType));
    assert_eq!(
        type_ref(&applied("Option", vec![applied("Box", vec![named("Child")])]), &names),
        Ok(TypeRef::Optional(Box::new(TypeRef::Message(0)))),
    );
    assert_eq!(
        type_ref(&applied("Vec", vec![named("u8")]), &names),
        Ok(TypeRef::List(Box::new(TypeRef::Scalar(ScalarKind::U8)))),
    );
    assert_eq!(
        type_ref(&applied("HashMap", vec![named("String"), named("Child")]), &names),
        Ok(TypeRef::Mapping(Box::new(TypeRef::Text), Box::new(TypeRef::Message(0)))),
    );
    assert_eq!(
        type_ref(&applied("Option", vec![named("Stranger")]), &names),
        Err(DeclarationError::UnknownType),
    );
    assert_eq!(
        type_ref(&applied("Rc", vec![named("u8")]), &names),
        Err(DeclarationError::UnknownType),
    );
    assert_eq!(
        type_ref(&applied("u8", vec![named("u8")]), &names),
        Err(DeclarationError::UnknownType),
    );
}

#[test]
fn payload_of_a_variant() {
    let names = vec![];
    assert_eq!(variant_payload(&vec![named("String")], &names), Ok(TypeRef::Text));
    assert_eq!(variant_payload(&vec![], &names), Err(DeclarationError::TupleVariantItems));
    assert_eq!(
        variant_payload(&vec![named("String"), named("u8")], &names),
        Err(DeclarationError::TupleVariantItems),
    );
}

#[test]
fn number_of_the_default_tag() {
    let variant = |discriminant, is_default| UnitVariant { discriminant, is_default };
    assert_eq!(default_number(&vec![]), 0);
    assert_eq!(default_number(&vec![variant(None, false), variant(None, true)]), 1);
    assert_eq!(default_number(&vec![variant(Some(1), true), variant(Some(2), false)]), 1);
    assert_eq!(
        default_number(&vec![variant(Some(5), false), variant(None, false), variant(None, true)]),
        7,
    );
    assert_eq!(default_number(&vec![variant(Some(5), false), variant(None, false)]), 0);
}
