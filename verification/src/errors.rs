//! The two error classes of the compiler.
//!
//! Schema errors arise once, while an endpoint description is validated;
//! every violation found is reported together in one combined list, so a
//! user sees the whole repair at once. Runtime errors arise while a
//! generated codec marshals a concrete message and propagate singly.

use vstd::prelude::*;

verus! {

/// A violation found while classifying fields or validating a schema
/// against its metadata. Fields and placeholders are named so the report
/// points at the offending declarations.
#[derive(Debug, Clone, PartialEq, Eq)]
pub enum SchemaError {
    /// A field carries more than one field-kind attribute.
    DuplicateKindAttribute { field: String },
    /// A field carries an attribute that names no known kind.
    UnknownAttributeKey { field: String },
    /// More than one field claims the whole body; every such field is named.
    MultipleNewtypeBodyFields { fields: Vec<String> },
    /// A whole-body field stands beside aggregate body fields; the
    /// whole-body fields come first in the list, the aggregate ones after.
    NewtypeBodyWithBodyFields { fields: Vec<String> },
    /// The method is GET yet fields ask to travel in the body; every such
    /// field is named, the whole-body ones last.
    BodyFieldsOnGetMethod { fields: Vec<String> },
    /// The path template does not begin with the path separator.
    PathTemplateMissingRoot,
    /// The template's placeholder count differs from the path field count.
    PlaceholderFieldCountMismatch { placeholders: usize, path_fields: usize },
    /// A placeholder names no path field.
    UnknownPlaceholderField { name: String },
}

/// A failure while a codec marshals one concrete message; exactly one is
/// returned per failed conversion.
#[derive(Debug, Clone, PartialEq, Eq)]
pub enum RuntimeError {
    /// A declared header is absent from the incoming message.
    MissingHeader { header: String },
    /// A present header's value does not parse into the field's type.
    /// Field values travel as text here, so only a caller-side parse of a
    /// decoded value reports it.
    HeaderParseError { header: String },
    /// A path segment does not decode into its field.
    PathSegmentDecodeError { field: String },
    /// The query string does not decode into the query fields.
    QueryDecodeError,
    /// The body is not valid under the structured format.
    BodyDeserializeError,
    /// A response arrived with a non-success status; its body was not read.
    HttpStatusError { status: u16 },
}

} // verus!
