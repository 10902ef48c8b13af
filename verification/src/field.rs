//! Fields as the front end delivers them and the kinds they resolve to.

use vstd::prelude::*;

verus! {

/// One declared field: a name and an opaque descriptor of its type. The
/// descriptor is carried through into the emitted artifact and never
/// interpreted here.
#[derive(Debug)]
pub struct Field {
    pub name: String,
    pub ty: String,
}

impl Field {
    /// An identical copy of the field.
    pub fn duplicate(&self) -> (r: Field)
        ensures
            r == *self,
    {
        Field { name: self.name.clone(), ty: self.ty.clone() }
    }
}

/// One attribute annotation on a declared field: a bare word such as
/// `body`, or a name/value pair such as `header = "Content-Type"`.
#[derive(Debug)]
pub enum Meta {
    Word(String),
    NameValue(String, String),
}

/// A field as declared, before classification: its name, its type
/// descriptor, and its attribute annotations.
#[derive(Debug)]
pub struct RawField {
    pub name: String,
    pub ty: String,
    pub attrs: Vec<Meta>,
}

/// The places a request field can be bound to on the wire.
#[derive(Clone, Copy, PartialEq, Eq, Structural, Debug)]
pub enum RequestFieldKind {
    /// Part of the aggregate body object.
    Body,
    /// A named header.
    Header,
    /// The whole body, with no wrapping object.
    NewtypeBody,
    /// A path segment bound to a placeholder.
    Path,
    /// A query string parameter.
    Query,
}

} // verus!
