use endpoint_schema::api::{Api, RawApi};
use endpoint_schema::errors::RuntimeError;
use endpoint_schema::field::{Meta, RawField, RequestFieldKind};
use endpoint_schema::metadata::{Method, RawMetadata};
use endpoint_schema::request::{RawRequest, Request, RequestField};
use endpoint_schema::response::{RawResponse, Response};
use endpoint_schema::template::Segment;
use endpoint_schema::text::check_plain_name;

fn field(name: &str, attrs: Vec<Meta>) -> RawField {
    RawField { name: name.to_string(), ty: "String".to_string(), attrs }
}

fn word(w: &str) -> Meta {
    Meta::Word(w.to_string())
}

fn header(name: &str) -> Meta {
    Meta::NameValue("header".to_string(), name.to_string())
}

fn sample_request() -> Request {
    Request::try_from(&RawRequest {
        fields: vec![
            field("baz", vec![word("path")]),
            field("bar", vec![word("query")]),
            field("content_type", vec![header("Content-Type")]),
            field("foo", vec![]),
        ],
    })
    .expect("sample request should classify")
}

#[test]
fn derived_queries_report_the_kinds() {
    let req = sample_request();
    assert!(req.has_body_fields());
    assert!(req.has_header_fields());
    assert!(req.has_path_fields());
    assert!(req.has_query_fields());
    assert_eq!(req.path_field_count(), 1);
}

#[test]
fn a_request_without_kind_has_none() {
    let req = Request::try_from(&RawRequest { fields: vec![field("foo", vec![])] })
        .expect("one body field should classify");
    assert!(req.has_body_fields());
    assert!(!req.has_header_fields());
    assert!(!req.has_path_fields());
    assert!(!req.has_query_fields());
    assert_eq!(req.path_field_count(), 0);
}

#[test]
fn body_fields_filters_by_kind() {
    let req = sample_request();
    let bodies = req.body_fields();
    assert_eq!(bodies.len(), 1);
    assert_eq!(bodies[0].name, "foo");
    assert_eq!(bodies[0].ty, "String");
}

#[test]
fn header_fields_filters_by_kind() {
    let req = sample_request();
    let hs = req.header_fields();
    assert_eq!(hs.len(), 1);
    assert!(matches!(&hs[0], RequestField::Header(f, h)
        if f.name == "content_type" && h == "Content-Type"));
}

#[test]
fn path_field_looks_up_by_name() {
    let req = sample_request();
    let f = req.path_field("baz").expect("baz is a path field");
    assert_eq!(f.name, "baz");
    assert!(req.path_field("bar").is_none());
    assert!(req.path_field("nothing").is_none());
}

#[test]
fn newtype_body_field_is_found() {
    let req = Request::try_from(&RawRequest {
        fields: vec![field("whole", vec![word("body")])],
    })
    .expect("a whole-body field should classify");
    let f = req.newtype_body_field().expect("the whole-body field");
    assert_eq!(f.name, "whole");
    assert!(sample_request().newtype_body_field().is_none());
}

#[test]
fn request_field_kind_queries() {
    let req = sample_request();
    assert_eq!(req.fields[0].kind(), RequestFieldKind::Path);
    assert!(req.fields[0].is_path());
    assert!(req.fields[1].is_query());
    assert!(req.fields[2].is_header());
    assert!(req.fields[3].is_body());
    assert!(req.fields[3].as_body_field().is_some());
    assert!(req.fields[0].as_body_field().is_none());
    assert_eq!(req.fields[0].field().name, "baz");
    assert!(req.fields[0].field_of_kind(RequestFieldKind::Path).is_some());
    assert!(req.fields[0].field_of_kind(RequestFieldKind::Query).is_none());
}

#[test]
fn struct_init_fields_picks_the_destination_values() {
    let req = sample_request();
    let values = vec![
        "42".to_string(),
        "hi".to_string(),
        "text/plain".to_string(),
        "payload".to_string(),
    ];
    assert_eq!(req.request_path_init_fields(&values), vec!["42".to_string()]);
    assert_eq!(req.request_query_init_fields(&values), vec!["hi".to_string()]);
    assert_eq!(req.request_body_init_fields(&values), vec!["payload".to_string()]);
    assert_eq!(req.request_init_body_fields(&values), vec!["payload".to_string()]);
    assert_eq!(req.request_init_query_fields(&values), vec!["hi".to_string()]);
    assert_eq!(
        req.struct_init_fields(RequestFieldKind::Header, &values),
        vec!["text/plain".to_string()]
    );
}

#[test]
fn add_headers_builds_the_pairs() {
    let req = sample_request();
    let values = vec![
        "42".to_string(),
        "hi".to_string(),
        "text/plain".to_string(),
        "payload".to_string(),
    ];
    assert_eq!(
        req.add_headers_to_request(&values),
        vec![("Content-Type".to_string(), "text/plain".to_string())]
    );
}

#[test]
fn parse_headers_reads_by_name() {
    let req = sample_request();
    let headers = vec![
        ("Other".to_string(), "x".to_string()),
        ("Content-Type".to_string(), "text/plain".to_string()),
    ];
    assert_eq!(
        req.parse_headers_from_request(&headers),
        Ok(vec!["text/plain".to_string()])
    );
    let err = req.parse_headers_from_request(&vec![]);
    assert_eq!(
        err,
        Err(RuntimeError::MissingHeader { header: "Content-Type".to_string() })
    );
}

#[test]
fn response_queries_report_fields() {
    let resp = Response::try_from(&RawResponse {
        fields: vec![field("age", vec![]), field("kind", vec![header("X-Kind")])],
    })
    .expect("sample response should classify");
    assert!(resp.has_body_fields());
    assert!(resp.has_fields());
    assert!(resp.fields[0].is_body());
    assert!(!resp.fields[1].is_body());
    let empty = Response::try_from(&RawResponse { fields: vec![] })
        .expect("an empty response should classify");
    assert!(!empty.has_body_fields());
    assert!(!empty.has_fields());
}

#[test]
fn response_init_fields_distributes() {
    let resp = Response::try_from(&RawResponse {
        fields: vec![field("age", vec![]), field("kind", vec![header("X-Kind")])],
    })
    .expect("sample response should classify");
    let headers = vec![("X-Kind".to_string(), "plain".to_string())];
    let body = "{\"age\":\"29\"}".to_string();
    assert_eq!(
        resp.init_fields(&headers, &body),
        Ok(vec!["29".to_string(), "plain".to_string()])
    );
    let bad = resp.init_fields(&headers, &"nonsense".to_string());
    assert_eq!(bad, Err(RuntimeError::BodyDeserializeError));
}

#[test]
fn the_template_parses_into_segments() {
    let api = Api::try_from(&RawApi {
        metadata: RawMetadata {
            method: Method::Post,
            name: "some_endpoint".to_string(),
            description: "An endpoint used by the tests.".to_string(),
            path: "/_matrix/some/endpoint/:baz".to_string(),
            rate_limited: true,
            requires_authentication: true,
        },
        request: RawRequest { fields: vec![field("baz", vec![word("path")])] },
        response: RawResponse { fields: vec![] },
    })
    .expect("the sample endpoint should validate");
    let segs = &api.metadata.template.segments;
    assert_eq!(segs.len(), 4);
    assert!(matches!(&segs[0], Segment::Literal(l) if l == "_matrix"));
    assert!(matches!(&segs[1], Segment::Literal(l) if l == "some"));
    assert!(matches!(&segs[2], Segment::Literal(l) if l == "endpoint"));
    assert!(matches!(&segs[3], Segment::Placeholder(n) if n == "baz"));
    assert_eq!(api.metadata.template.placeholder_count(), 1);
    assert!(api.metadata.rate_limited);
    assert!(api.metadata.requires_authentication);
    assert_eq!(api.metadata.method.as_str(), "POST");
}

#[test]
fn plain_names_are_recognised() {
    assert!(check_plain_name("content_type"));
    assert!(check_plain_name("baz2"));
    assert!(!check_plain_name(""));
    assert!(!check_plain_name("has space"));
    assert!(!check_plain_name("a-b"));
}

#[test]
fn request_field_new_builds_each_kind() {
    let f = endpoint_schema::field::Field { name: "x".to_string(), ty: "String".to_string() };
    let built = RequestField::new(
        RequestFieldKind::Header,
        f,
        Some("X-Thing".to_string()),
    );
    assert!(matches!(&built, RequestField::Header(f, h) if f.name == "x" && h == "X-Thing"));
    let g = endpoint_schema::field::Field { name: "y".to_string(), ty: "String".to_string() };
    let built = RequestField::new(RequestFieldKind::Query, g.duplicate(), None);
    assert!(matches!(&built, RequestField::Query(f) if f.name == "y"));
    assert_eq!(g.ty, "String");
}
