//! The rules by which a declaration of a record, a union or an
//! enumeration becomes its descriptor: what its markers mean, and which
//! type a type expression stands for.

use vstd::prelude::*;
use vstd::string::StringExecFns;
use crate::schema::{ScalarKind, TypeRef};

verus! {

/// A marker on a declaration or on one of its parts.
#[derive(Clone, Copy, Debug, PartialEq, Eq, Structural)]
pub enum Mark {
    /// The sub-fields of the field are addressed without a prefix.
    Flatten,
    /// An optional that holds the default tag is normalised to absent.
    NormalizeSomeDefault,
    /// Anything else.
    Other,
}

/// Why a declaration has no descriptor.
#[derive(Clone, Copy, Debug, PartialEq, Eq, Structural)]
pub enum DeclarationError {
    /// A marker stands where it means nothing.
    InvalidMeta,
    /// A field is marked as flattened more than once.
    DuplicatedFlatten,
    /// An enumeration is marked as normalised more than once.
    DuplicatedNormalizeSomeDefault,
    /// A variant of a union does not have exactly one payload.
    TupleVariantItems,
    /// A type expression names no type.
    UnknownType,
}

/// A type expression: a name applied to arguments.
#[derive(Debug, PartialEq, Eq)]
pub struct TypeExpr {
    pub name: String,
    pub args: Vec<TypeExpr>,
}

/// Whether every one of `marks` is `mark`.
pub open spec fn only(marks: Seq<Mark>, mark: Mark) -> bool {
    forall|i: int| 0 <= i < marks.len() ==> #[trigger] marks[i] == mark
}

/// What the markers of a part that takes none say: nothing, or that one
/// of them is out of place.
pub open spec fn no_marks_rule(marks: Seq<Mark>) -> Result<(), DeclarationError> {
    if marks.len() == 0 {
        Ok(())
    } else {
        Err(DeclarationError::InvalidMeta)
    }
}

/// Whether a field is flattened: `marks` are its markers, and `one_of`
/// says that it is declared as the `oneof` field of a message, which
/// flattens it too. Any other marker is out of place, and the field is
/// flattened at most once.
pub open spec fn flatten_rule(marks: Seq<Mark>, one_of: bool) -> Result<bool, DeclarationError> {
    if !only(marks, Mark::Flatten) {
        Err(DeclarationError::InvalidMeta)
    } else if marks.len() + (if one_of { 1nat } else { 0nat }) >= 2 {
        Err(DeclarationError::DuplicatedFlatten)
    } else {
        Ok(marks.len() == 1 || one_of)
    }
}

/// Whether an enumeration is normalised where it is optional. Any other
/// marker is out of place, and the marker stands at most once.
pub open spec fn normalize_rule(marks: Seq<Mark>) -> Result<bool, DeclarationError> {
    if !only(marks, Mark::NormalizeSomeDefault) {
        Err(DeclarationError::InvalidMeta)
    } else if marks.len() >= 2 {
        Err(DeclarationError::DuplicatedNormalizeSomeDefault)
    } else {
        Ok(marks.len() == 1)
    }
}

/// Whether every one of `marks` is `mark`.
pub fn marks_are(marks: &Vec<Mark>, mark: Mark) -> (b: bool)
    ensures
        b == only(marks@, mark),
{
    let mut i: usize = 0;
    while i < marks.len()
        invariant
            i <= marks.len(),
            forall|k: int| 0 <= k < i ==> #[trigger] marks@[k] == mark,
        decreases marks.len() - i,
    {
        if marks[i] != mark {
            return false;
        }
        i += 1;
    }
    true
}

/// Checks the markers of a part that takes none.
pub fn assert_no_attr(marks: &Vec<Mark>) -> (r: Result<(), DeclarationError>)
    ensures
        r == no_marks_rule(marks@),
{
    if marks.len() == 0 {
        Ok(())
    } else {
        Err(DeclarationError::InvalidMeta)
    }
}

/// Whether the field with the markers `marks` is flattened.
pub fn is_flatten(marks: &Vec<Mark>, one_of: bool) -> (r: Result<bool, DeclarationError>)
    ensures
        r == flatten_rule(marks@, one_of),
{
    if !marks_are(marks, Mark::Flatten) {
        return Err(DeclarationError::InvalidMeta);
    }
    if marks.len() >= 2 || (marks.len() == 1 && one_of) {
        return Err(DeclarationError::DuplicatedFlatten);
    }
    Ok(marks.len() == 1 || one_of)
}

/// Whether the enumeration with the markers `marks` is normalised where
/// it is optional.
pub fn normalize_some_default(marks: &Vec<Mark>) -> (r: Result<bool, DeclarationError>)
    ensures
        r == normalize_rule(marks@),
{
    if !marks_are(marks, Mark::NormalizeSomeDefault) {
        return Err(DeclarationError::InvalidMeta);
    }
    if marks.len() >= 2 {
        return Err(DeclarationError::DuplicatedNormalizeSomeDefault);
    }
    Ok(marks.len() == 1)
}

/// The scalar type with the name `name`, if there is one.
pub open spec fn scalar_named(name: Seq<char>) -> Option<ScalarKind> {
    if name == "bool"@ {
        Some(ScalarKind::Bool)
    } else if name == "char"@ {
        Some(ScalarKind::Char)
    } else if name == "i8"@ {
        Some(ScalarKind::I8)
    } else if name == "i16"@ {
        Some(ScalarKind::I16)
    } else if name == "i32"@ {
        Some(ScalarKind::I32)
    } else if name == "i64"@ {
        Some(ScalarKind::I64)
    } else if name == "i128"@ {
        Some(ScalarKind::I128)
    } else if name == "isize"@ {
        Some(ScalarKind::Isize)
    } else if name == "u8"@ {
        Some(ScalarKind::U8)
    } else if name == "u16"@ {
        Some(ScalarKind::U16)
    } else if name == "u32"@ {
        Some(ScalarKind::U32)
    } else if name == "u64"@ {
        Some(ScalarKind::U64)
    } else if name == "u128"@ {
        Some(ScalarKind::U128)
    } else if name == "usize"@ {
        Some(ScalarKind::Usize)
    } else if name == "f32"@ {
        Some(ScalarKind::F32)
    } else if name == "f64"@ {
        Some(ScalarKind::F64)
    } else {
        None
    }
}

/// The first position from `from` on at which `names` holds `name`.
pub open spec fn position_of(names: Seq<String>, name: Seq<char>, from: int) -> Option<usize>
    decreases names.len() - from,
{
    if from < 0 || from >= names.len() {
        None
    } else if names[from]@ == name {
        Some(from as usize)
    } else {
        position_of(names, name, from + 1)
    }
}

/// The type that `expr` stands for, where `names` are the names of the
/// registered types, in the order of the registry.
///
/// A scalar, `String` and `Bytes` stand for themselves; `Option`, `Vec`
/// and `HashMap` for an optional, a repeated field and a map of their
/// arguments; a `Box` for what it holds; any other name without arguments
/// for the registered type of that name.
pub open spec fn type_of(expr: TypeExpr, names: Seq<String>) -> Result<TypeRef, DeclarationError>
    decreases expr,
{
    let name = expr.name@;
    let args = expr.args@;
    if args.len() == 0 {
        if scalar_named(name) is Some {
            Ok(TypeRef::Scalar(scalar_named(name)->0))
        } else if name == "String"@ {
            Ok(TypeRef::Text)
        } else if name == "Bytes"@ {
            Ok(TypeRef::Bytes)
        } else {
            match position_of(names, name, 0) {
                Some(index) => Ok(TypeRef::Message(index)),
                None => Err(DeclarationError::UnknownType),
            }
        }
    } else if args.len() == 1 {
        match type_of(args[0], names) {
            Ok(inner) => if name == "Box"@ {
                Ok(inner)
            } else if name == "Option"@ {
                Ok(TypeRef::Optional(Box::new(inner)))
            } else if name == "Vec"@ {
                Ok(TypeRef::List(Box::new(inner)))
            } else {
                Err(DeclarationError::UnknownType)
            },
            Err(e) => Err(e),
        }
    } else if args.len() == 2 {
        match type_of(args[0], names) {
            Ok(key) => match type_of(args[1], names) {
                Ok(value) => if name == "HashMap"@ {
                    Ok(TypeRef::Mapping(Box::new(key), Box::new(value)))
                } else {
                    Err(DeclarationError::UnknownType)
                },
                Err(e) => Err(e),
            },
            Err(e) => Err(e),
        }
    } else {
        Err(DeclarationError::UnknownType)
    }
}

/// The payload of a variant of a union: the one type in its parentheses.
pub open spec fn payload_rule(items: Seq<TypeExpr>, names: Seq<String>) -> Result<
    TypeRef,
    DeclarationError,
> {
    if items.len() == 1 {
        type_of(items[0], names)
    } else {
        Err(DeclarationError::TupleVariantItems)
    }
}

/// Whether `text` is the string `literal`.
fn is(text: &String, literal: &str) -> (b: bool)
    ensures
        b == (text@ == literal@),
{
    let other = String::from_str(literal);
    *text == other
}

/// The scalar type with the name `name`, if there is one.
pub fn scalar_kind(name: &String) -> (r: Option<ScalarKind>)
    ensures
        r == scalar_named(name@),
{
    if is(name, "bool") {
        Some(ScalarKind::Bool)
    } else if is(name, "char") {
        Some(ScalarKind::Char)
    } else if is(name, "i8") {
        Some(ScalarKind::I8)
    } else if is(name, "i16") {
        Some(ScalarKind::I16)
    } else if is(name, "i32") {
        Some(ScalarKind::I32)
    } else if is(name, "i64") {
        Some(ScalarKind::I64)
    } else if is(name, "i128") {
        Some(ScalarKind::I128)
    } else if is(name, "isize") {
        Some(ScalarKind::Isize)
    } else if is(name, "u8") {
        Some(ScalarKind::U8)
    } else if is(name, "u16") {
        Some(ScalarKind::U16)
    } else if is(name, "u32") {
        Some(ScalarKind::U32)
    } else if is(name, "u64") {
        Some(ScalarKind::U64)
    } else if is(name, "u128") {
        Some(ScalarKind::U128)
    } else if is(name, "usize") {
        Some(ScalarKind::Usize)
    } else if is(name, "f32") {
        Some(ScalarKind::F32)
    } else if is(name, "f64") {
        Some(ScalarKind::F64)
    } else {
        None
    }
}

/// The type that `expr` stands for.
pub fn type_ref(expr: &TypeExpr, names: &Vec<String>) -> (r: Result<TypeRef, DeclarationError>)
    ensures
        r == type_of(*expr, names@),
    decreases expr,
{
    let count = expr.args.len();
    if count == 0 {
        match scalar_kind(&expr.name) {
            Some(kind) => {
                return Ok(TypeRef::Scalar(kind));
            },
            None => {},
        }
        if is(&expr.name, "String") {
            return Ok(TypeRef::Text);
        }
        if is(&expr.name, "Bytes") {
            return Ok(TypeRef::Bytes);
        }
        let mut k: usize = 0;
        while k < names.len()
            invariant
                k <= names.len(),
                expr.args@.len() == 0,
                scalar_named(expr.name@) is None,
                expr.name@ != "String"@,
                expr.name@ != "Bytes"@,
                position_of(names@, expr.name@, 0) == position_of(names@, expr.name@, k as int),
            decreases names.len() - k,
        {
            if names[k] == expr.name {
                return Ok(TypeRef::Message(k));
            }
            k += 1;
        }
        Err(DeclarationError::UnknownType)
    } else if count == 1 {
        assert(decreases_to!(*expr => expr.args));
        assert(decreases_to!(expr.args => expr.args@));
        assert(decreases_to!(expr.args@ => expr.args@[0]));
        match type_ref(&expr.args[0], names) {
            Ok(inner) => {
                if is(&expr.name, "Box") {
                    Ok(inner)
                } else if is(&expr.name, "Option") {
                    Ok(TypeRef::Optional(Box::new(inner)))
                } else if is(&expr.name, "Vec") {
                    Ok(TypeRef::List(Box::new(inner)))
                } else {
                    Err(DeclarationError::UnknownType)
                }
            },
            Err(e) => Err(e),
        }
    } else if count == 2 {
        assert(decreases_to!(*expr => expr.args));
        assert(decreases_to!(expr.args => expr.args@));
        assert(decreases_to!(expr.args@ => expr.args@[0]));
        assert(decreases_to!(expr.args@ => expr.args@[1]));
        match type_ref(&expr.args[0], names) {
            Ok(key) => match type_ref(&expr.args[1], names) {
                Ok(value) => {
                    if is(&expr.name, "HashMap") {
                        Ok(TypeRef::Mapping(Box::new(key), Box::new(value)))
                    } else {
                        Err(DeclarationError::UnknownType)
                    }
                },
                Err(e) => Err(e),
            },
            Err(e) => Err(e),
        }
    } else {
        Err(DeclarationError::UnknownType)
    }
}

/// The payload of a variant of a union with the types `items` in its
/// parentheses.
pub fn variant_payload(items: &Vec<TypeExpr>, names: &Vec<String>) -> (r: Result<
    TypeRef,
    DeclarationError,
>)
    ensures
        r == payload_rule(items@, names@),
{
    if items.len() == 1 {
        type_ref(&items[0], names)
    } else {
        Err(DeclarationError::TupleVariantItems)
    }
}

/// A variant of an enumeration: the number that it is given, if it is
/// given one, and whether it is marked as the default.
#[derive(Clone, Copy, Debug, PartialEq, Eq)]
pub struct UnitVariant {
    pub discriminant: Option<i32>,
    pub is_default: bool,
}

/// The number after `n`, as far as numbers go.
pub open spec fn number_after(n: i32) -> i32 {
    if n < i32::MAX {
        (n + 1) as i32
    } else {
        n
    }
}

/// The number of the variant at position `k`: the number that it is
/// given, else the number after that of the variant before it, and zero
/// for the first.
pub open spec fn number_of(variants: Seq<UnitVariant>, k: int) -> i32
    decreases k,
{
    if k < 0 || k >= variants.len() {
        0
    } else if variants[k].discriminant is Some {
        variants[k].discriminant->0
    } else if k == 0 {
        0
    } else {
        number_after(number_of(variants, k - 1))
    }
}

/// The number of the first variant from `from` on that is marked as the
/// default, or zero where none is.
pub open spec fn default_number_from(variants: Seq<UnitVariant>, from: int) -> i32
    decreases variants.len() - from,
{
    if from < 0 || from >= variants.len() {
        0
    } else if variants[from].is_default {
        number_of(variants, from)
    } else {
        default_number_from(variants, from + 1)
    }
}

/// The number of the default tag of an enumeration with these variants.
pub fn default_number(variants: &Vec<UnitVariant>) -> (r: i32)
    ensures
        r == default_number_from(variants@, 0),
{
    let mut number: i32 = 0;
    let mut k: usize = 0;
    while k < variants.len()
        invariant
            k <= variants.len(),
            k > 0 ==> number == number_of(variants@, k - 1),
            default_number_from(variants@, 0) == default_number_from(variants@, k as int),
        decreases variants.len() - k,
    {
        let current = match variants[k].discriminant {
            Some(given) => given,
            None => if k == 0 {
                0
            } else if number < i32::MAX {
                number + 1
            } else {
                number
            },
        };
        assert(current == number_of(variants@, k as int));
        if variants[k].is_default {
            return current;
        }
        number = current;
        k += 1;
    }
    0
}

} // verus!
