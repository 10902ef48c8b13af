use endpoint_schema::api::{Api, RawApi};
use endpoint_schema::envelope::{RawHttpRequest, RawHttpResponse};
use endpoint_schema::errors::RuntimeError;
use endpoint_schema::field::{Meta, RawField};
use endpoint_schema::metadata::{Method, RawMetadata};
use endpoint_schema::request::RawRequest;
use endpoint_schema::response::RawResponse;

fn field(name: &str, attrs: Vec<Meta>) -> RawField {
    RawField { name: name.to_string(), ty: "String".to_string(), attrs }
}

fn word(w: &str) -> Meta {
    Meta::Word(w.to_string())
}

fn header(name: &str) -> Meta {
    Meta::NameValue("header".to_string(), name.to_string())
}

fn metadata(method: Method, path: &str) -> RawMetadata {
    RawMetadata {
        method,
        name: "some_endpoint".to_string(),
        description: "An endpoint used by the tests.".to_string(),
        path: path.to_string(),
        rate_limited: false,
        requires_authentication: false,
    }
}

fn sample_api() -> Api {
    let raw = RawApi {
        metadata: metadata(Method::Post, "/_matrix/some/endpoint/:baz"),
        request: RawRequest {
            fields: vec![
                field("baz", vec![word("path")]),
                field("bar", vec![word("query")]),
                field("content_type", vec![header("Content-Type")]),
                field("foo", vec![]),
            ],
        },
        response: RawResponse { fields: vec![field("foo", vec![])] },
    };
    Api::try_from(&raw).expect("sample endpoint should validate")
}

#[test]
fn encodes_the_documented_request() {
    let api = sample_api();
    let values = vec![
        "42".to_string(),
        "hi".to_string(),
        "text/plain".to_string(),
        "payload".to_string(),
    ];
    let env = api.encode_request(&values);
    assert_eq!(env.method, "POST");
    assert_eq!(env.path, "/_matrix/some/endpoint/42");
    assert_eq!(env.query, Some("bar=hi".to_string()));
    assert_eq!(
        env.headers,
        vec![("Content-Type".to_string(), "text/plain".to_string())]
    );
    assert_eq!(env.body, "{\"foo\":\"payload\"}");
}

#[test]
fn request_round_trips_through_all_destinations() {
    let api = sample_api();
    let values = vec![
        "42".to_string(),
        "hi".to_string(),
        "text/plain".to_string(),
        "payload".to_string(),
    ];
    let env = api.encode_request(&values);
    let decoded = api.decode_request(&env).expect("decoding an encoded request");
    assert_eq!(decoded, values);
}

#[test]
fn request_round_trips_with_reserved_characters() {
    let api = sample_api();
    let values = vec![
        "a/b c&d=e".to_string(),
        "x%y?z".to_string(),
        "text/plain".to_string(),
        "quo\"te\\slash".to_string(),
    ];
    let env = api.encode_request(&values);
    let decoded = api.decode_request(&env).expect("decoding an encoded request");
    assert_eq!(decoded, values);
}

#[test]
fn path_values_are_percent_escaped() {
    let api = sample_api();
    let values = vec![
        "a/b".to_string(),
        "hi".to_string(),
        "t".to_string(),
        "p".to_string(),
    ];
    let env = api.encode_request(&values);
    assert_eq!(env.path, "/_matrix/some/endpoint/a%2fb");
}

#[test]
fn body_values_are_escaped() {
    let api = sample_api();
    let values = vec![
        "42".to_string(),
        "hi".to_string(),
        "t".to_string(),
        "a\"b\\c".to_string(),
    ];
    let env = api.encode_request(&values);
    assert_eq!(env.body, "{\"foo\":\"a\\\"b\\\\c\"}");
    let decoded = api.decode_request(&env).expect("decoding an escaped body");
    assert_eq!(decoded[3], "a\"b\\c");
}

fn newtype_api() -> Api {
    let raw = RawApi {
        metadata: metadata(Method::Put, "/thing"),
        request: RawRequest { fields: vec![field("whole", vec![word("body")])] },
        response: RawResponse { fields: vec![field("whole", vec![word("body")])] },
    };
    Api::try_from(&raw).expect("newtype endpoint should validate")
}

#[test]
fn newtype_body_is_the_whole_payload() {
    let api = newtype_api();
    let values = vec!["the whole thing".to_string()];
    let env = api.encode_request(&values);
    assert_eq!(env.body, "\"the whole thing\"");
    let decoded = api.decode_request(&env).expect("decoding a newtype body");
    assert_eq!(decoded, values);
}

#[test]
fn empty_body_mode_sends_nothing() {
    let raw = RawApi {
        metadata: metadata(Method::Get, "/thing/:id"),
        request: RawRequest { fields: vec![field("id", vec![word("path")])] },
        response: RawResponse { fields: vec![] },
    };
    let api = Api::try_from(&raw).expect("bodyless endpoint should validate");
    let env = api.encode_request(&vec!["7".to_string()]);
    assert_eq!(env.body, "");
    assert_eq!(env.query, None);
    let resp = api.encode_response(&vec![]);
    assert_eq!(resp.body, "");
}

#[test]
fn response_round_trips() {
    let raw = RawApi {
        metadata: metadata(Method::Post, "/thing"),
        request: RawRequest { fields: vec![] },
        response: RawResponse {
            fields: vec![field("age", vec![]), field("kind", vec![header("X-Kind")])],
        },
    };
    let api = Api::try_from(&raw).expect("response endpoint should validate");
    let values = vec!["29".to_string(), "plain".to_string()];
    let env = api.encode_response(&values);
    assert_eq!(env.status, 200);
    assert_eq!(env.body, "{\"age\":\"29\"}");
    assert_eq!(env.headers[0], ("X-Kind".to_string(), "plain".to_string()));
    assert_eq!(
        env.headers[1],
        ("Content-Type".to_string(), "application/json".to_string())
    );
    let decoded = api.decode_response(&env).expect("decoding an encoded response");
    assert_eq!(decoded, values);
}

#[test]
fn error_status_short_circuits_body_parsing() {
    let api = sample_api();
    let env = RawHttpResponse {
        status: 404,
        headers: vec![],
        body: "this is not valid under the structured format".to_string(),
    };
    let err = api.decode_response(&env).expect_err("a 404 must fail");
    assert_eq!(err, RuntimeError::HttpStatusError { status: 404 });
}

#[test]
fn missing_header_is_reported_by_name() {
    let raw = RawApi {
        metadata: metadata(Method::Post, "/thing"),
        request: RawRequest { fields: vec![] },
        response: RawResponse { fields: vec![field("kind", vec![header("X-Kind")])] },
    };
    let api = Api::try_from(&raw).expect("header endpoint should validate");
    let env = RawHttpResponse { status: 200, headers: vec![], body: "".to_string() };
    let err = api.decode_response(&env).expect_err("a missing header must fail");
    assert_eq!(err, RuntimeError::MissingHeader { header: "X-Kind".to_string() });
}

#[test]
fn missing_request_header_is_reported_by_name() {
    let api = sample_api();
    let env = RawHttpRequest {
        method: "POST".to_string(),
        path: "/_matrix/some/endpoint/42".to_string(),
        query: Some("bar=hi".to_string()),
        headers: vec![],
        body: "{\"foo\":\"p\"}".to_string(),
    };
    let err = api.decode_request(&env).expect_err("a missing header must fail");
    assert_eq!(
        err,
        RuntimeError::MissingHeader { header: "Content-Type".to_string() }
    );
}

#[test]
fn bad_path_escape_names_the_field() {
    let api = sample_api();
    let env = RawHttpRequest {
        method: "POST".to_string(),
        path: "/_matrix/some/endpoint/%zz".to_string(),
        query: Some("bar=hi".to_string()),
        headers: vec![("Content-Type".to_string(), "t".to_string())],
        body: "{\"foo\":\"p\"}".to_string(),
    };
    let err = api.decode_request(&env).expect_err("a bad escape must fail");
    assert_eq!(err, RuntimeError::PathSegmentDecodeError { field: "baz".to_string() });
}

#[test]
fn absent_query_fails_query_fields() {
    let api = sample_api();
    let env = RawHttpRequest {
        method: "POST".to_string(),
        path: "/_matrix/some/endpoint/42".to_string(),
        query: None,
        headers: vec![("Content-Type".to_string(), "t".to_string())],
        body: "{\"foo\":\"p\"}".to_string(),
    };
    let err = api.decode_request(&env).expect_err("an absent query must fail");
    assert_eq!(err, RuntimeError::QueryDecodeError);
}

#[test]
fn malformed_query_piece_fails() {
    let api = sample_api();
    let env = RawHttpRequest {
        method: "POST".to_string(),
        path: "/_matrix/some/endpoint/42".to_string(),
        query: Some("no_equals_sign".to_string()),
        headers: vec![("Content-Type".to_string(), "t".to_string())],
        body: "{\"foo\":\"p\"}".to_string(),
    };
    let err = api.decode_request(&env).expect_err("a piece without = must fail");
    assert_eq!(err, RuntimeError::QueryDecodeError);
}

#[test]
fn invalid_body_fails_deserialization() {
    let api = sample_api();
    let env = RawHttpRequest {
        method: "POST".to_string(),
        path: "/_matrix/some/endpoint/42".to_string(),
        query: Some("bar=hi".to_string()),
        headers: vec![("Content-Type".to_string(), "t".to_string())],
        body: "not an object".to_string(),
    };
    let err = api.decode_request(&env).expect_err("an invalid body must fail");
    assert_eq!(err, RuntimeError::BodyDeserializeError);
}

#[test]
fn body_missing_field_fails_deserialization() {
    let api = sample_api();
    let env = RawHttpRequest {
        method: "POST".to_string(),
        path: "/_matrix/some/endpoint/42".to_string(),
        query: Some("bar=hi".to_string()),
        headers: vec![("Content-Type".to_string(), "t".to_string())],
        body: "{\"other\":\"p\"}".to_string(),
    };
    let err = api.decode_request(&env).expect_err("a missing member must fail");
    assert_eq!(err, RuntimeError::BodyDeserializeError);
}

#[test]
fn decode_accepts_members_in_any_order() {
    let raw = RawApi {
        metadata: metadata(Method::Post, "/thing"),
        request: RawRequest { fields: vec![field("a", vec![]), field("b", vec![])] },
        response: RawResponse { fields: vec![] },
    };
    let api = Api::try_from(&raw).expect("two-member endpoint should validate");
    let env = RawHttpRequest {
        method: "POST".to_string(),
        path: "/thing".to_string(),
        query: None,
        headers: vec![],
        body: "{\"b\":\"two\",\"a\":\"one\"}".to_string(),
    };
    let decoded = api.decode_request(&env).expect("members by name, not position");
    assert_eq!(decoded, vec!["one".to_string(), "two".to_string()]);
}

#[test]
fn path_only_schema_round_trips() {
    let raw = RawApi {
        metadata: metadata(Method::Get, "/v/:a/:b"),
        request: RawRequest {
            fields: vec![field("a", vec![word("path")]), field("b", vec![word("path")])],
        },
        response: RawResponse { fields: vec![] },
    };
    let api = Api::try_from(&raw).expect("path-only endpoint should validate");
    let values = vec!["one two".to_string(), "x/y".to_string()];
    let env = api.encode_request(&values);
    assert_eq!(env.path, "/v/one%20two/x%2fy");
    assert_eq!(api.decode_request(&env).expect("path round trip"), values);
}

#[test]
fn query_only_schema_round_trips() {
    let raw = RawApi {
        metadata: metadata(Method::Get, "/v"),
        request: RawRequest {
            fields: vec![field("a", vec![word("query")]), field("b", vec![word("query")])],
        },
        response: RawResponse { fields: vec![] },
    };
    let api = Api::try_from(&raw).expect("query-only endpoint should validate");
    let values = vec!["p&q=r".to_string(), "".to_string()];
    let env = api.encode_request(&values);
    assert_eq!(env.query, Some("a=p%26q%3dr&b=".to_string()));
    assert_eq!(api.decode_request(&env).expect("query round trip"), values);
}

#[test]
fn header_only_schema_round_trips() {
    let raw = RawApi {
        metadata: metadata(Method::Get, "/v"),
        request: RawRequest {
            fields: vec![
                field("a", vec![header("X-First")]),
                field("b", vec![header("X-Second")]),
            ],
        },
        response: RawResponse { fields: vec![] },
    };
    let api = Api::try_from(&raw).expect("header-only endpoint should validate");
    let values = vec!["anything at all".to_string(), "second".to_string()];
    let env = api.encode_request(&values);
    assert_eq!(api.decode_request(&env).expect("header round trip"), values);
}
