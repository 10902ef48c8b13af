//! A schema compiler for HTTP API endpoints.
//!
//! An endpoint is described by its metadata (method, name, description, path
//! template, flags) and a flat list of typed fields, each annotated with the
//! place it occupies on the wire: a path segment, a query parameter, a header,
//! or the body. The library classifies the fields, validates the description
//! (exclusivity of body modes, method/body compatibility, placeholder/field
//! matching) reporting every violation at once, and then acts as the paired
//! codecs themselves: a validated endpoint converts structured field values
//! to and from raw HTTP request and response envelopes.

pub mod api;
pub mod envelope;
pub mod errors;
pub mod field;
pub mod jsonish;
pub mod laws;
pub mod metadata;
pub mod percent;
pub mod request;
pub mod response;
pub mod split;
pub mod template;
pub mod text;
