//! Endpoint metadata: method, naming, path template, and flags.

use vstd::prelude::*;

use crate::errors::SchemaError;
use crate::template::{template_matches, PathTemplate};

verus! {

/// The HTTP method of an endpoint.
#[derive(Clone, Copy, PartialEq, Eq, Structural, Debug)]
pub enum Method {
    Delete,
    Get,
    Head,
    Options,
    Patch,
    Post,
    Put,
}

impl Method {
    /// The method's name on the wire.
    pub open spec fn spec_name(self) -> Seq<char> {
        match self {
            Method::Delete => "DELETE"@,
            Method::Get => "GET"@,
            Method::Head => "HEAD"@,
            Method::Options => "OPTIONS"@,
            Method::Patch => "PATCH"@,
            Method::Post => "POST"@,
            Method::Put => "PUT"@,
        }
    }

    /// The method's name on the wire.
    pub fn as_str(self) -> (r: &'static str)
        ensures
            r@ == self.spec_name(),
    {
        match self {
            Method::Delete => "DELETE",
            Method::Get => "GET",
            Method::Head => "HEAD",
            Method::Options => "OPTIONS",
            Method::Patch => "PATCH",
            Method::Post => "POST",
            Method::Put => "PUT",
        }
    }
}

/// Endpoint metadata as the front end delivers it.
#[derive(Debug)]
pub struct RawMetadata {
    pub method: Method,
    pub name: String,
    pub description: String,
    pub path: String,
    pub rate_limited: bool,
    pub requires_authentication: bool,
}

/// Validated endpoint metadata: the same facts, with the path template
/// parsed into segments.
#[derive(Debug)]
pub struct Metadata {
    pub method: Method,
    pub name: String,
    pub description: String,
    pub path: String,
    pub template: PathTemplate,
    pub rate_limited: bool,
    pub requires_authentication: bool,
}

impl Metadata {
    /// Parses and validates raw metadata. Succeeds exactly when the path
    /// template opens with the path root `/`.
    pub fn try_from(raw: &RawMetadata) -> (r: Result<Metadata, SchemaError>)
        ensures
            r is Ok <==> raw.path@.len() >= 1 && raw.path@[0] == '/',
            r matches Ok(m) ==> m.method == raw.method && m.name@ == raw.name@ && m.description@
                == raw.description@ && m.path@ == raw.path@ && m.rate_limited == raw.rate_limited
                && m.requires_authentication == raw.requires_authentication && template_matches(
                m.template.segments@,
                m.path@,
            ),
            r matches Err(e) ==> e == SchemaError::PathTemplateMissingRoot,
    {
        match PathTemplate::parse(raw.path.as_str()) {
            Ok(template) => Ok(
                Metadata {
                    method: raw.method,
                    name: raw.name.clone(),
                    description: raw.description.clone(),
                    path: raw.path.clone(),
                    template,
                    rate_limited: raw.rate_limited,
                    requires_authentication: raw.requires_authentication,
                },
            ),
            Err(e) => Err(e),
        }
    }
}

} // verus!
