//! The errors of parsing a path into a mask.

use vstd::prelude::*;
use vstd::string::StringExecFns;

verus! {

/// Why a path does not select anything of a type.
#[derive(Debug, PartialEq, Eq)]
pub enum DeserializeMaskError {
    /// The type has no field that the segment names.
    FieldNotFound { field: String, type_ident: String },
    /// The rest of the path failed inside the field that the segment names.
    InvalidField { field: String, err: Box<DeserializeMaskError> },
}

/// The mathematical model of a [`DeserializeMaskError`].
pub enum MaskErrorView {
    FieldNotFound { field: Seq<char>, type_ident: Seq<char> },
    InvalidField { field: Seq<char>, err: Box<MaskErrorView> },
}

pub open spec fn error_view(e: DeserializeMaskError) -> MaskErrorView
    decreases e,
{
    match e {
        DeserializeMaskError::FieldNotFound { field, type_ident } => MaskErrorView::FieldNotFound {
            field: field@,
            type_ident: type_ident@,
        },
        DeserializeMaskError::InvalidField { field, err } => MaskErrorView::InvalidField {
            field: field@,
            err: Box::new(error_view(*err)),
        },
    }
}

impl View for DeserializeMaskError {
    type V = MaskErrorView;

    open spec fn view(&self) -> MaskErrorView {
        error_view(*self)
    }
}

/// Why a list of paths selects no mask: the first of the paths that
/// selects nothing, by its position and as it is written, and why.
#[derive(Debug, PartialEq, Eq)]
pub struct DeserializeFieldMaskError {
    pub index: usize,
    pub entry: String,
    pub err: DeserializeMaskError,
}

/// What `textwrap::indent` returns for a text and a prefix.
pub uninterp spec fn indented(text: Seq<char>, prefix: Seq<char>) -> Seq<char>;

/// Calls `textwrap::indent`, which puts the prefix before each line of the
/// text (the prefix without its trailing whitespace before a line that is
/// blank). The contract only names the result.
#[verifier::external_body]
fn indent(text: &str, prefix: &str) -> (r: String)
    ensures
        r@ == indented(text@, prefix@),
{
    textwrap::indent(text, prefix)
}

/// The message of an unknown field.
pub open spec fn not_found_message(field: Seq<char>, type_ident: Seq<char>) -> Seq<char> {
    "type `"@ + type_ident + "` has no field named \""@ + field + "\""@
}

/// The message of a failure inside a field, given the indented message of
/// the cause.
pub open spec fn invalid_field_message(field: Seq<char>, cause: Seq<char>) -> Seq<char> {
    "error in field \""@ + field + "\":\n"@ + cause
}

/// The message of an error: one line for an unknown field; for a failure
/// inside a field, a line that names the field, then the message of the
/// cause indented by one tab.
pub open spec fn message(e: MaskErrorView) -> Seq<char>
    decreases e,
{
    match e {
        MaskErrorView::FieldNotFound { field, type_ident } => not_found_message(field, type_ident),
        MaskErrorView::InvalidField { field, err } => invalid_field_message(
            field,
            indented(message(*err), "\t"@),
        ),
    }
}

/// The dotted path of the place where an error arose: the fields that
/// the path went through, then the segment that was not found.
pub open spec fn location(e: MaskErrorView) -> Seq<char>
    decreases e,
{
    match e {
        MaskErrorView::FieldNotFound { field, .. } => field,
        MaskErrorView::InvalidField { field, err } => field + "."@ + location(*err),
    }
}

/// Renders the message of an unknown field.
pub fn render_not_found(field: &str, type_ident: &str) -> (r: String)
    ensures
        r@ == not_found_message(field@, type_ident@),
{
    let mut r = String::from_str("type `");
    r.append(type_ident);
    r.append("` has no field named \"");
    r.append(field);
    r.append("\"");
    r
}

/// Renders the message of a failure inside `field`, given the indented
/// message of its cause.
pub fn render_invalid_field(field: &str, cause: &str) -> (r: String)
    ensures
        r@ == invalid_field_message(field@, cause@),
{
    let mut r = String::from_str("error in field \"");
    r.append(field);
    r.append("\":\n");
    r.append(cause);
    r
}

/// The message of the failure of a list of paths: the path that failed,
/// as it is written, and the message of its error.
pub open spec fn field_mask_message(entry: Seq<char>, e: MaskErrorView) -> Seq<char> {
    "can not parse fieldmask \""@ + entry + "\"; "@ + message(e)
}

impl DeserializeFieldMaskError {
    /// The message of this error.
    pub fn to_string(&self) -> (r: String)
        ensures
            r@ == field_mask_message(self.entry@, self.err@),
    {
        let mut r = String::from_str("can not parse fieldmask \"");
        r.append(self.entry.as_str());
        r.append("\"; ");
        let cause = self.err.to_string();
        r.append(cause.as_str());
        r
    }
}

impl DeserializeMaskError {
    /// The dotted path of the place where this error arose.
    pub fn location(&self) -> (r: String)
        ensures
            r@ == location(self@),
        decreases *self,
    {
        match self {
            DeserializeMaskError::FieldNotFound { field, .. } => field.clone(),
            DeserializeMaskError::InvalidField { field, err } => {
                let mut r = field.clone();
                r.append(".");
                let rest = err.location();
                r.append(rest.as_str());
                r
            },
        }
    }

    /// The message of this error.
    pub fn to_string(&self) -> (r: String)
        ensures
            r@ == message(self@),
        decreases *self,
    {
        match self {
            DeserializeMaskError::FieldNotFound { field, type_ident } => render_not_found(
                field.as_str(),
                type_ident.as_str(),
            ),
            DeserializeMaskError::InvalidField { field, err } => {
                let cause = err.to_string();
                let shifted = indent(cause.as_str(), "\t");
                render_invalid_field(field.as_str(), shifted.as_str())
            },
        }
    }
}

} // verus!
