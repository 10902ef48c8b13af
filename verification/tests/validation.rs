use endpoint_schema::api::{Api, RawApi};
use endpoint_schema::errors::SchemaError;
use endpoint_schema::field::{Meta, RawField};
use endpoint_schema::metadata::{Method, RawMetadata};
use endpoint_schema::request::RawRequest;
use endpoint_schema::response::RawResponse;

fn field(name: &str, attrs: Vec<Meta>) -> RawField {
    RawField { name: name.to_string(), ty: "String".to_string(), attrs }
}

fn word(w: &str) -> Meta {
    Meta::Word(w.to_string())
}

fn header(name: &str) -> Meta {
    Meta::NameValue("header".to_string(), name.to_string())
}

fn raw(method: Method, path: &str, req: Vec<RawField>, resp: Vec<RawField>) -> RawApi {
    RawApi {
        metadata: RawMetadata {
            method,
            name: "some_endpoint".to_string(),
            description: "An endpoint used by the tests.".to_string(),
            path: path.to_string(),
            rate_limited: false,
            requires_authentication: false,
        },
        request: RawRequest { fields: req },
        response: RawResponse { fields: resp },
    }
}

#[test]
fn get_with_body_fields_lists_every_offender() {
    let desc = raw(
        Method::Get,
        "/thing",
        vec![
            field("a", vec![]),
            field("b", vec![word("query")]),
            field("c", vec![]),
        ],
        vec![],
    );
    let errs = Api::try_from(&desc).expect_err("a GET with body fields must fail");
    assert_eq!(
        errs,
        vec![SchemaError::BodyFieldsOnGetMethod {
            fields: vec!["a".to_string(), "c".to_string()],
        }]
    );
}

#[test]
fn get_with_a_whole_body_field_names_it() {
    let desc = raw(Method::Get, "/thing", vec![field("d", vec![word("body")])], vec![]);
    let errs = Api::try_from(&desc).expect_err("a GET with a whole-body field must fail");
    assert_eq!(
        errs,
        vec![SchemaError::BodyFieldsOnGetMethod { fields: vec!["d".to_string()] }]
    );
}

#[test]
fn two_newtype_body_fields_name_both() {
    let desc = raw(
        Method::Post,
        "/thing",
        vec![field("first", vec![word("body")]), field("second", vec![word("body")])],
        vec![],
    );
    let errs = Api::try_from(&desc).expect_err("two whole-body fields must fail");
    assert_eq!(
        errs,
        vec![SchemaError::MultipleNewtypeBodyFields {
            fields: vec!["first".to_string(), "second".to_string()],
        }]
    );
}

#[test]
fn newtype_beside_body_fields_is_refused() {
    let desc = raw(
        Method::Post,
        "/thing",
        vec![field("whole", vec![word("body")]), field("part", vec![])],
        vec![],
    );
    let errs = Api::try_from(&desc).expect_err("mixed body modes must fail");
    assert_eq!(
        errs,
        vec![SchemaError::NewtypeBodyWithBodyFields {
            fields: vec!["whole".to_string(), "part".to_string()],
        }]
    );
}

#[test]
fn too_few_path_fields_fail() {
    let desc = raw(
        Method::Post,
        "/thing/:a/:b",
        vec![field("a", vec![word("path")])],
        vec![],
    );
    let errs = Api::try_from(&desc).expect_err("placeholder surplus must fail");
    assert!(errs.contains(&SchemaError::PlaceholderFieldCountMismatch {
        placeholders: 2,
        path_fields: 1,
    }));
}

#[test]
fn too_many_path_fields_fail() {
    let desc = raw(
        Method::Post,
        "/thing/:a",
        vec![field("a", vec![word("path")]), field("b", vec![word("path")])],
        vec![],
    );
    let errs = Api::try_from(&desc).expect_err("path field surplus must fail");
    assert!(errs.contains(&SchemaError::PlaceholderFieldCountMismatch {
        placeholders: 1,
        path_fields: 2,
    }));
}

#[test]
fn unmatched_placeholder_is_named() {
    let desc = raw(
        Method::Post,
        "/thing/:a/:b",
        vec![field("a", vec![word("path")]), field("c", vec![word("path")])],
        vec![],
    );
    let errs = Api::try_from(&desc).expect_err("an unmatched placeholder must fail");
    assert_eq!(
        errs,
        vec![SchemaError::UnknownPlaceholderField { name: "b".to_string() }]
    );
}

#[test]
fn rootless_template_is_refused() {
    let desc = raw(Method::Post, "thing", vec![], vec![]);
    let errs = Api::try_from(&desc).expect_err("a rootless template must fail");
    assert_eq!(errs, vec![SchemaError::PathTemplateMissingRoot]);
}

#[test]
fn violations_are_reported_together() {
    let desc = raw(
        Method::Get,
        "/thing/:missing",
        vec![field("a", vec![]), field("b", vec![word("body")])],
        vec![],
    );
    let errs = Api::try_from(&desc).expect_err("several violations must fail");
    assert_eq!(errs.len(), 4);
    assert!(matches!(errs[0], SchemaError::NewtypeBodyWithBodyFields { .. }));
    assert!(matches!(errs[1], SchemaError::BodyFieldsOnGetMethod { .. }));
    assert!(matches!(errs[2], SchemaError::PlaceholderFieldCountMismatch { .. }));
    assert!(matches!(errs[3], SchemaError::UnknownPlaceholderField { .. }));
}

#[test]
fn duplicate_kind_attribute_is_refused() {
    let desc = raw(
        Method::Post,
        "/thing",
        vec![field("a", vec![word("query"), word("path")])],
        vec![],
    );
    let errs = Api::try_from(&desc).expect_err("two kind attributes must fail");
    assert_eq!(
        errs,
        vec![SchemaError::DuplicateKindAttribute { field: "a".to_string() }]
    );
}

#[test]
fn unknown_attribute_key_is_refused() {
    let desc = raw(
        Method::Post,
        "/thing",
        vec![field("a", vec![word("fragment")])],
        vec![],
    );
    let errs = Api::try_from(&desc).expect_err("an unknown word must fail");
    assert_eq!(
        errs,
        vec![SchemaError::UnknownAttributeKey { field: "a".to_string() }]
    );
}

#[test]
fn unknown_name_value_key_is_refused() {
    let desc = raw(
        Method::Post,
        "/thing",
        vec![field("a", vec![Meta::NameValue("cookie".to_string(), "X".to_string())])],
        vec![],
    );
    let errs = Api::try_from(&desc).expect_err("a key other than header must fail");
    assert_eq!(
        errs,
        vec![SchemaError::UnknownAttributeKey { field: "a".to_string() }]
    );
}

#[test]
fn classification_errors_come_from_both_sections() {
    let desc = raw(
        Method::Post,
        "/thing",
        vec![field("a", vec![word("nonsense")])],
        vec![field("b", vec![word("query")])],
    );
    let errs = Api::try_from(&desc).expect_err("both sections report");
    assert_eq!(
        errs,
        vec![
            SchemaError::UnknownAttributeKey { field: "a".to_string() },
            SchemaError::UnknownAttributeKey { field: "b".to_string() },
        ]
    );
}

#[test]
fn response_with_two_whole_body_fields_is_refused() {
    let desc = raw(
        Method::Post,
        "/thing",
        vec![],
        vec![field("x", vec![word("body")]), field("y", vec![word("body")])],
    );
    let errs = Api::try_from(&desc).expect_err("two response whole-body fields must fail");
    assert_eq!(
        errs,
        vec![SchemaError::MultipleNewtypeBodyFields {
            fields: vec!["x".to_string(), "y".to_string()],
        }]
    );
}

#[test]
fn a_valid_description_is_accepted() {
    let desc = raw(
        Method::Get,
        "/thing/:id",
        vec![field("id", vec![word("path")]), field("q", vec![word("query")])],
        vec![field("kind", vec![header("X-Kind")])],
    );
    assert!(Api::try_from(&desc).is_ok());
}
