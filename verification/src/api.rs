//! The endpoint: validated metadata and schemas, and the paired codecs.
//!
//! `Api::try_from` performs the cross-cutting validation of an endpoint
//! description, reporting every violation at once; a validated `Api` then
//! carries the four conversions between structured field values and raw
//! HTTP envelopes.

use vstd::prelude::*;

use crate::envelope::{header_views, is_success_status, lookup_header, RawHttpRequest,
    RawHttpResponse};
use crate::errors::{RuntimeError, SchemaError};
use crate::field::{RawField, RequestFieldKind};
use crate::jsonish::{lookup_member, lookup_pair, object_text, pair_views, parse_object,
    parse_object_chars, parse_quoted, parse_quoted_at, quote_chars, quoted};
use crate::metadata::{Metadata, Method, RawMetadata};
use crate::percent::{pct_decode, pct_encode};
use crate::request::{classify_errors_from, count_kind, count_of_kind, has_kind, names_of_kind,
    spec_classify, spec_names_of_kind, spec_path_field_named, Request, RequestField, RawRequest};
use crate::response::{resp_body_names, resp_count_body, resp_count_newtype, resp_newtype_names,
    response_classify_errors_from, spec_classify_response, spec_init_fields_from, RawResponse,
    Response, ResponseField};
use crate::split::{divide_first, join_with, split, split_first, split_on};
use crate::template::{count_placeholders, lemma_placeholder_pos_skip, piece_placeholder_names,
    placeholder_names, placeholder_pos, seg_named, seg_placeholder_name, template_matches,
    PathTemplate, Segment};
use crate::text::{is_plain_name, str_chars, string_of_chars};

verus! {

/// The result of validating one endpoint description.
#[derive(Debug)]
pub struct Api {
    pub metadata: Metadata,
    pub request: Request,
    pub response: Response,
}

/// One endpoint description as the front end delivers it.
#[derive(Debug)]
pub struct RawApi {
    pub metadata: RawMetadata,
    pub request: RawRequest,
    pub response: RawResponse,
}

/// One where a condition holds, zero where it does not.
pub open spec fn b2i(b: bool) -> int {
    if b {
        1
    } else {
        0
    }
}

/// Whether declared field names are identifier-shaped and pairwise
/// distinct, as a front end handing over struct fields guarantees.
pub open spec fn raw_names_ok(fields: Seq<RawField>) -> bool {
    &&& forall|i: int| 0 <= i < fields.len() ==> is_plain_name(#[trigger] fields[i].name@)
    &&& forall|i: int, j: int|
        0 <= i < j < fields.len() ==> #[trigger] fields[i].name@ != #[trigger] fields[j].name@
}

/// Whether every declared field of the description classifies.
pub open spec fn classification_clean(raw: RawApi) -> bool {
    &&& forall|i: int|
        0 <= i < raw.request.fields@.len() ==> #[trigger] spec_classify(
            raw.request.fields@[i],
        ) is Ok
    &&& forall|i: int|
        0 <= i < raw.response.fields@.len() ==> #[trigger] spec_classify_response(
            raw.response.fields@[i],
        ) is Ok
}

/// The classified request fields, meaningful when classification is clean.
pub open spec fn classified_req(fields: Seq<RawField>) -> Seq<RequestField> {
    fields.map_values(|rf: RawField| spec_classify(rf).unwrap())
}

/// The classified response fields, meaningful when classification is clean.
pub open spec fn classified_resp(fields: Seq<RawField>) -> Seq<ResponseField> {
    fields.map_values(|rf: RawField| spec_classify_response(rf).unwrap())
}

/// More than one request field claims the whole body.
pub open spec fn v_req_multi(reqf: Seq<RequestField>) -> bool {
    count_kind(reqf, RequestFieldKind::NewtypeBody) >= 2
}

/// A whole-body request field stands beside aggregate body fields.
pub open spec fn v_req_mixed(reqf: Seq<RequestField>) -> bool {
    count_kind(reqf, RequestFieldKind::NewtypeBody) >= 1 && count_kind(
        reqf,
        RequestFieldKind::Body,
    ) >= 1
}

/// More than one response field claims the whole body.
pub open spec fn v_resp_multi(respf: Seq<ResponseField>) -> bool {
    resp_count_newtype(respf) >= 2
}

/// A whole-body response field stands beside aggregate body fields.
pub open spec fn v_resp_mixed(respf: Seq<ResponseField>) -> bool {
    resp_count_newtype(respf) >= 1 && resp_count_body(respf) >= 1
}

/// The method is GET yet request fields ask to travel in the body.
pub open spec fn v_get(method: Method, reqf: Seq<RequestField>) -> bool {
    method == Method::Get && (count_kind(reqf, RequestFieldKind::Body) >= 1 || count_kind(
        reqf,
        RequestFieldKind::NewtypeBody,
    ) >= 1)
}

/// The path template does not open with the path root.
pub open spec fn v_root(path: Seq<char>) -> bool {
    !(path.len() >= 1 && path[0] == '/')
}

/// The placeholder names the template text declares, in order.
pub open spec fn tpl_names(path: Seq<char>) -> Seq<Seq<char>> {
    piece_placeholder_names(split_on(path.skip(1), '/'))
}

/// The placeholder count differs from the path field count.
pub open spec fn v_count(path: Seq<char>, reqf: Seq<RequestField>) -> bool {
    tpl_names(path).len() != count_kind(reqf, RequestFieldKind::Path)
}

/// The placeholder names without a path field of the same name, in order.
pub open spec fn missing_placeholders(names: Seq<Seq<char>>, reqf: Seq<RequestField>) -> Seq<
    Seq<char>,
>
    decreases names.len(),
{
    if names.len() == 0 {
        Seq::empty()
    } else {
        (if spec_path_field_named(reqf, names[0]) is None {
            seq![names[0]]
        } else {
            Seq::empty()
        }) + missing_placeholders(names.skip(1), reqf)
    }
}

/// The template's unmatched placeholder names.
pub open spec fn tpl_missing(path: Seq<char>, reqf: Seq<RequestField>) -> Seq<Seq<char>> {
    missing_placeholders(tpl_names(path), reqf)
}

/// Whether a description violates none of the schema invariants.
pub open spec fn api_violation_free(
    method: Method,
    path: Seq<char>,
    reqf: Seq<RequestField>,
    respf: Seq<ResponseField>,
) -> bool {
    &&& !v_req_multi(reqf)
    &&& !v_req_mixed(reqf)
    &&& !v_resp_multi(respf)
    &&& !v_resp_mixed(respf)
    &&& !v_get(method, reqf)
    &&& !v_root(path)
    &&& !v_count(path, reqf)
    &&& tpl_missing(path, reqf).len() == 0
}

/// Whether a name list names exactly the given names.
pub open spec fn names_eq(v: Seq<String>, names: Seq<Seq<char>>) -> bool {
    v.map_values(|s: String| s@) == names
}

/// Whether a combined error list reports exactly the violated invariants,
/// in a fixed order: the body-mode violations of the request, then those
/// of the response, the method violation, the template violations, and
/// one entry per unmatched placeholder.
pub open spec fn violations_match(
    method: Method,
    path: Seq<char>,
    reqf: Seq<RequestField>,
    respf: Seq<ResponseField>,
    es: Seq<SchemaError>,
) -> bool {
    let i1 = 0int;
    let i2 = i1 + b2i(v_req_multi(reqf));
    let i3 = i2 + b2i(v_req_mixed(reqf));
    let i4 = i3 + b2i(v_resp_multi(respf));
    let i5 = i4 + b2i(v_resp_mixed(respf));
    let i6 = i5 + b2i(v_get(method, reqf));
    let i7 = i6 + b2i(v_root(path));
    let i8 = i7 + b2i(!v_root(path) && v_count(path, reqf));
    let miss = if v_root(path) {
        Seq::<Seq<char>>::empty()
    } else {
        tpl_missing(path, reqf)
    };
    &&& es.len() == i8 + miss.len()
    &&& (v_req_multi(reqf) ==> (es[i1] matches SchemaError::MultipleNewtypeBodyFields { fields }
        && names_eq(fields@, spec_names_of_kind(reqf, RequestFieldKind::NewtypeBody))))
    &&& (v_req_mixed(reqf) ==> (es[i2] matches SchemaError::NewtypeBodyWithBodyFields { fields }
        && names_eq(
        fields@,
        spec_names_of_kind(reqf, RequestFieldKind::NewtypeBody) + spec_names_of_kind(
            reqf,
            RequestFieldKind::Body,
        ),
    )))
    &&& (v_resp_multi(respf) ==> (es[i3] matches SchemaError::MultipleNewtypeBodyFields { fields }
        && names_eq(fields@, resp_newtype_names(respf))))
    &&& (v_resp_mixed(respf) ==> (es[i4] matches SchemaError::NewtypeBodyWithBodyFields { fields }
        && names_eq(fields@, resp_newtype_names(respf) + resp_body_names(respf))))
    &&& (v_get(method, reqf) ==> (es[i5] matches SchemaError::BodyFieldsOnGetMethod { fields }
        && names_eq(
        fields@,
        spec_names_of_kind(reqf, RequestFieldKind::Body) + spec_names_of_kind(
            reqf,
            RequestFieldKind::NewtypeBody,
        ),
    )))
    &&& (v_root(path) ==> es[i6] == SchemaError::PathTemplateMissingRoot)
    &&& ((!v_root(path) && v_count(path, reqf)) ==> (es[i7]
        matches SchemaError::PlaceholderFieldCountMismatch { placeholders, path_fields }
        && placeholders == tpl_names(path).len() && path_fields == count_kind(
        reqf,
        RequestFieldKind::Path,
    )))
    &&& forall|k: int|
        0 <= k < miss.len() ==> ((#[trigger] es[i8 + k])
            matches SchemaError::UnknownPlaceholderField { name } && name@ == miss[k])
}

/// Whether classified field names are identifier-shaped and pairwise
/// distinct.
pub open spec fn req_schema_names_ok(reqf: Seq<RequestField>) -> bool {
    &&& forall|i: int|
        0 <= i < reqf.len() ==> is_plain_name(#[trigger] reqf[i].spec_field().name@)
    &&& forall|i: int, j: int|
        0 <= i < j < reqf.len() ==> #[trigger] reqf[i].spec_field().name@ != #[trigger] reqf[j].spec_field().name@
}

/// The response-side counterpart of [`req_schema_names_ok`].
pub open spec fn resp_schema_names_ok(respf: Seq<ResponseField>) -> bool {
    &&& forall|i: int|
        0 <= i < respf.len() ==> is_plain_name(#[trigger] respf[i].spec_field().name@)
    &&& forall|i: int, j: int|
        0 <= i < j < respf.len() ==> #[trigger] respf[i].spec_field().name@ != #[trigger] respf[
            j
        ].spec_field().name@
}

impl Api {
    /// The well-formedness a successful validation establishes: names are
    /// plain and distinct, the stored template is the parse of the path
    /// text, the body modes are exclusive, a GET request carries no body
    /// fields, and the placeholders and path fields match up.
    pub open spec fn valid(&self) -> bool {
        let reqf = self.request.fields@;
        let respf = self.response.fields@;
        let segs = self.metadata.template.segments@;
        &&& req_schema_names_ok(reqf)
        &&& resp_schema_names_ok(respf)
        &&& template_matches(segs, self.metadata.path@)
        &&& count_kind(reqf, RequestFieldKind::NewtypeBody) <= 1
        &&& count_kind(reqf, RequestFieldKind::NewtypeBody) == 0 || count_kind(
            reqf,
            RequestFieldKind::Body,
        ) == 0
        &&& resp_count_newtype(respf) <= 1
        &&& resp_count_newtype(respf) == 0 || resp_count_body(respf) == 0
        &&& (self.metadata.method == Method::Get ==> count_kind(reqf, RequestFieldKind::Body) == 0
            && count_kind(reqf, RequestFieldKind::NewtypeBody) == 0)
        &&& count_placeholders(segs) == count_kind(reqf, RequestFieldKind::Path)
        &&& forall|j: int|
            0 <= j < segs.len() && segs[j] is Placeholder ==> spec_path_field_named(
                reqf,
                seg_placeholder_name(#[trigger] segs[j]),
            ) is Some
    }
}

/// Classification keeps a field's declared name.
pub proof fn lemma_classify_keeps_name(rf: RawField)
    ensures
        spec_classify(rf) matches Ok(cf) ==> cf.spec_field().name == rf.name,
        spec_classify_response(rf) matches Ok(cf) ==> cf.spec_field().name == rf.name,
{
    if rf.attrs@.len() >= 1 {
        match rf.attrs@[0] {
            crate::field::Meta::Word(_) => {},
            crate::field::Meta::NameValue(_, _) => {},
        }
    }
}

/// An empty missing list means every placeholder name has its path field.
proof fn lemma_missing_empty_all_present(names: Seq<Seq<char>>, reqf: Seq<RequestField>)
    requires
        missing_placeholders(names, reqf).len() == 0,
    ensures
        forall|k: int| 0 <= k < names.len() ==> spec_path_field_named(reqf, #[trigger] names[k]) is Some,
    decreases names.len(),
{
    if names.len() != 0 {
        lemma_missing_empty_all_present(names.skip(1), reqf);
        assert forall|k: int| 0 <= k < names.len() implies spec_path_field_named(
            reqf,
            #[trigger] names[k],
        ) is Some by {
            if k >= 1 {
                assert(names.skip(1)[k - 1] == names[k]);
            }
        }
    }
}

/// A clean run of request classification leaves no errors.
proof fn lemma_classify_errors_empty(fields: Seq<RawField>, i: int)
    requires
        forall|j: int| 0 <= j < fields.len() ==> #[trigger] spec_classify(fields[j]) is Ok,
        0 <= i,
    ensures
        classify_errors_from(fields, i).len() == 0,
    decreases fields.len() - i,
{
    if i < fields.len() {
        lemma_classify_errors_empty(fields, i + 1);
    }
}

/// A clean run of response classification leaves no errors.
proof fn lemma_response_classify_errors_empty(fields: Seq<RawField>, i: int)
    requires
        forall|j: int|
            0 <= j < fields.len() ==> #[trigger] spec_classify_response(fields[j]) is Ok,
        0 <= i,
    ensures
        response_classify_errors_from(fields, i).len() == 0,
    decreases fields.len() - i,
{
    if i < fields.len() {
        lemma_response_classify_errors_empty(fields, i + 1);
    }
}

/// The unmatched placeholder names of the stored template, in order.
fn missing_placeholder_names(segs: &Vec<Segment>, req: &Request) -> (r: Vec<String>)
    ensures
        r@.map_values(|s: String| s@) == missing_placeholders(
            placeholder_names(segs@),
            req.fields@,
        ),
{
    proof {
        assert(segs@.skip(0) =~= segs@);
    }
    missing_placeholder_names_from(segs, req, 0)
}

fn missing_placeholder_names_from(segs: &Vec<Segment>, req: &Request, i: usize) -> (r: Vec<
    String,
>)
    requires
        i <= segs@.len(),
    ensures
        r@.map_values(|s: String| s@) == missing_placeholders(
            placeholder_names(segs@.skip(i as int)),
            req.fields@,
        ),
    decreases segs@.len() - i,
{
    if i == segs.len() {
        let r: Vec<String> = Vec::new();
        proof {
            assert(segs@.skip(i as int) =~= Seq::<Segment>::empty());
            assert(r@.map_values(|s: String| s@) =~~= Seq::<Seq<char>>::empty());
        }
        r
    } else {
        let rest = missing_placeholder_names_from(segs, req, i + 1);
        proof {
            assert(segs@.skip(i as int)[0] == segs@[i as int]);
            assert(segs@.skip(i as int).skip(1) =~= segs@.skip(i + 1));
        }
        match &segs[i] {
            Segment::Placeholder(n) => {
                let ghost names = placeholder_names(segs@.skip(i as int));
                proof {
                    assert(names[0] == n@);
                    assert(names.skip(1) =~= placeholder_names(segs@.skip(i + 1)));
                }
                match req.path_field(n.as_str()) {
                    Some(_) => rest,
                    None => {
                        let mut r: Vec<String> = Vec::new();
                        r.push(n.clone());
                        let mut tail = rest;
                        let ghost tail_snapshot = tail@;
                        r.append(&mut tail);
                        proof {
                            assert(r@.map_values(|s: String| s@) =~~= seq![r@[0]@]
                                + tail_snapshot.map_values(|s: String| s@));
                        }
                        r
                    },
                }
            },
            Segment::Literal(_) => {
                proof {
                    assert(placeholder_names(segs@.skip(i as int)) =~= placeholder_names(
                        segs@.skip(i + 1),
                    ));
                }
                rest
            },
        }
    }
}

impl Api {
    /// Validates one endpoint description: classifies the fields of both
    /// sections and checks every schema invariant, collecting all
    /// violations into one combined report. Succeeds exactly when there
    /// is no violation at all, and then yields a well-formed endpoint.
    #[verifier::rlimit(100)]
    pub fn try_from(raw: &RawApi) -> (r: Result<Api, Vec<SchemaError>>)
        requires
            raw_names_ok(raw.request.fields@),
            raw_names_ok(raw.response.fields@),
        ensures
            r is Ok <==> (classification_clean(*raw) && api_violation_free(
                raw.metadata.method,
                raw.metadata.path@,
                classified_req(raw.request.fields@),
                classified_resp(raw.response.fields@),
            )),
            r matches Ok(api) ==> {
                &&& api.metadata.method == raw.metadata.method
                &&& api.metadata.name@ == raw.metadata.name@
                &&& api.metadata.description@ == raw.metadata.description@
                &&& api.metadata.path@ == raw.metadata.path@
                &&& api.metadata.rate_limited == raw.metadata.rate_limited
                &&& api.metadata.requires_authentication == raw.metadata.requires_authentication
                &&& api.request.fields@ == classified_req(raw.request.fields@)
                &&& api.response.fields@ == classified_resp(raw.response.fields@)
                &&& api.valid()
            },
            r matches Err(es) ==> es@.len() > 0 && if !classification_clean(*raw) {
                es@ == classify_errors_from(raw.request.fields@, 0)
                    + response_classify_errors_from(raw.response.fields@, 0)
            } else {
                violations_match(
                    raw.metadata.method,
                    raw.metadata.path@,
                    classified_req(raw.request.fields@),
                    classified_resp(raw.response.fields@),
                    es@,
                )
            },
    {
        let req_r = Request::try_from(&raw.request);
        let resp_r = Response::try_from(&raw.response);
        let (request, response) = match (req_r, resp_r) {
            (Ok(rq), Ok(rs)) => (rq, rs),
            (Err(mut e1), Err(mut e2)) => {
                e1.append(&mut e2);
                return Err(e1);
            },
            (Err(e1), Ok(_)) => {
                proof {
                    lemma_response_classify_errors_empty(raw.response.fields@, 0);
                    assert(e1@ =~= classify_errors_from(raw.request.fields@, 0)
                        + response_classify_errors_from(raw.response.fields@, 0));
                }
                return Err(e1);
            },
            (Ok(_), Err(e2)) => {
                proof {
                    lemma_classify_errors_empty(raw.request.fields@, 0);
                    assert(e2@ =~= classify_errors_from(raw.request.fields@, 0)
                        + response_classify_errors_from(raw.response.fields@, 0));
                }
                return Err(e2);
            },
        };
        let ghost reqf = classified_req(raw.request.fields@);
        let ghost respf = classified_resp(raw.response.fields@);
        proof {
            assert(request.fields@ =~= reqf);
            assert(response.fields@ =~= respf);
        }
        let checked = check_schema(&raw.metadata, &request, &response);
        let md_opt = checked.0;
        let errs = checked.1;
        if errs.len() == 0 {
            match md_opt {
                Some(metadata) => {
                    let api = Api { metadata, request, response };
                    proof {
                        lemma_api_names_ok(raw.request.fields@, reqf, raw.response.fields@, respf);
                        crate::request::lemma_count_kind_bounds(reqf, RequestFieldKind::Body);
                        crate::request::lemma_count_kind_bounds(
                            reqf,
                            RequestFieldKind::NewtypeBody,
                        );
                        crate::response::lemma_resp_count_bounds(respf);
                        assert(api.valid());
                    }
                    Ok(api)
                },
                None => {
                    proof {
                        assert(false);
                    }
                    Err(errs)
                },
            }
        } else {
            Err(errs)
        }
    }
}

/// Checks the schema invariants of the classified sections against the
/// raw metadata, collecting every violation in the fixed report order.
/// The parsed metadata comes back alongside whenever the template opens
/// with the path root.
#[verifier::rlimit(100)]
fn check_schema(md: &RawMetadata, request: &Request, response: &Response) -> (r: (
    Option<Metadata>,
    Vec<SchemaError>,
))
    ensures
        violations_match(md.method, md.path@, request.fields@, response.fields@, r.1@),
        (r.1@.len() == 0) == api_violation_free(
            md.method,
            md.path@,
            request.fields@,
            response.fields@,
        ),
        r.1@.len() == 0 ==> (r.0 matches Some(m) && ({
            &&& m.method == md.method
            &&& m.name@ == md.name@
            &&& m.description@ == md.description@
            &&& m.path@ == md.path@
            &&& m.rate_limited == md.rate_limited
            &&& m.requires_authentication == md.requires_authentication
            &&& template_matches(m.template.segments@, md.path@)
            &&& count_placeholders(m.template.segments@) == count_kind(
                request.fields@,
                RequestFieldKind::Path,
            )
            &&& forall|j: int|
                0 <= j < m.template.segments@.len() && m.template.segments@[j] is Placeholder
                    ==> spec_path_field_named(
                    request.fields@,
                    seg_placeholder_name(#[trigger] m.template.segments@[j]),
                ) is Some
        })),
{
        let ghost reqf = request.fields@;
        let ghost respf = response.fields@;
        let ghost path = md.path@;
        let req_newtype = count_of_kind(&request.fields, RequestFieldKind::NewtypeBody);
        let req_body = count_of_kind(&request.fields, RequestFieldKind::Body);
        let req_path_count = count_of_kind(&request.fields, RequestFieldKind::Path);
        let resp_newtype = crate::response::count_newtype(&response.fields);
        let resp_body = crate::response::count_body(&response.fields);
        let mut errs: Vec<SchemaError> = Vec::new();
        if req_newtype >= 2 {
            let fields = names_of_kind(&request.fields, RequestFieldKind::NewtypeBody);
            errs.push(SchemaError::MultipleNewtypeBodyFields { fields });
        }
        let ghost m1 = v_req_multi(reqf);
        proof {
            assert(errs@.len() == b2i(m1));
        }
        if req_newtype >= 1 && req_body >= 1 {
            let mut fs = names_of_kind(&request.fields, RequestFieldKind::NewtypeBody);
            let mut bs = names_of_kind(&request.fields, RequestFieldKind::Body);
            let ghost fsv = fs@;
            let ghost bsv = bs@;
            fs.append(&mut bs);
            proof {
                assert(fs@.map_values(|s: String| s@) =~~= fsv.map_values(|s: String| s@)
                    + bsv.map_values(|s: String| s@));
            }
            errs.push(SchemaError::NewtypeBodyWithBodyFields { fields: fs });
        }
        let ghost m2 = v_req_mixed(reqf);
        proof {
            assert(errs@.len() == b2i(m1) + b2i(m2));
        }
        if resp_newtype >= 2 {
            let fields = crate::response::newtype_names(&response.fields);
            errs.push(SchemaError::MultipleNewtypeBodyFields { fields });
        }
        let ghost m3 = v_resp_multi(respf);
        proof {
            assert(errs@.len() == b2i(m1) + b2i(m2) + b2i(m3));
        }
        if resp_newtype >= 1 && resp_body >= 1 {
            let mut fs = crate::response::newtype_names(&response.fields);
            let mut bs = crate::response::body_names(&response.fields);
            let ghost fsv = fs@;
            let ghost bsv = bs@;
            fs.append(&mut bs);
            proof {
                assert(fs@.map_values(|s: String| s@) =~~= fsv.map_values(|s: String| s@)
                    + bsv.map_values(|s: String| s@));
            }
            errs.push(SchemaError::NewtypeBodyWithBodyFields { fields: fs });
        }
        let ghost m4 = v_resp_mixed(respf);
        proof {
            assert(errs@.len() == b2i(m1) + b2i(m2) + b2i(m3) + b2i(m4));
        }
        let is_get = md.method == Method::Get;
        if is_get && (req_body >= 1 || req_newtype >= 1) {
            let mut bs = names_of_kind(&request.fields, RequestFieldKind::Body);
            let mut fs = names_of_kind(&request.fields, RequestFieldKind::NewtypeBody);
            let ghost bsv = bs@;
            let ghost fsv = fs@;
            bs.append(&mut fs);
            proof {
                assert(bs@.map_values(|s: String| s@) =~~= bsv.map_values(|s: String| s@)
                    + fsv.map_values(|s: String| s@));
            }
            errs.push(SchemaError::BodyFieldsOnGetMethod { fields: bs });
        }
        let ghost m5 = v_get(md.method, reqf);
        proof {
            assert(errs@.len() == b2i(m1) + b2i(m2) + b2i(m3) + b2i(m4) + b2i(m5));
        }
        match Metadata::try_from(md) {
            Err(e) => {
                errs.push(e);
                proof {
                    assert(v_root(path));
                    assert(violations_match(md.method, path, reqf, respf, errs@));
                }
                (None, errs)
            },
            Ok(metadata) => {
                let ghost segs = metadata.template.segments@;
                proof {
                    assert(!v_root(path));
                    lemma_placeholder_names_align_wrap(segs, path);
                    crate::template::lemma_count_is_names_len(segs);
                }
                let ph_count = metadata.template.placeholder_count();
                if ph_count != req_path_count {
                    errs.push(
                        SchemaError::PlaceholderFieldCountMismatch {
                            placeholders: ph_count,
                            path_fields: req_path_count,
                        },
                    );
                }
                let ghost m7 = v_count(path, reqf);
                proof {
                    assert(errs@.len() == b2i(m1) + b2i(m2) + b2i(m3) + b2i(m4) + b2i(m5) + b2i(
                        m7,
                    ));
                }
                let miss = missing_placeholder_names(&metadata.template.segments, &request);
                let ghost missv = tpl_missing(path, reqf);
                proof {
                    assert(miss@.map_values(|s: String| s@) == missv);
                    assert(miss@.len() == missv.len());
                }
                let ghost base_errs = errs@;
                let mut k: usize = 0;
                while k < miss.len()
                    invariant
                        k <= miss@.len(),
                        miss@.map_values(|s: String| s@) == missv,
                        miss@.len() == missv.len(),
                        errs@ =~= base_errs + Seq::new(
                            k as nat,
                            |j: int| SchemaError::UnknownPlaceholderField { name: miss@[j] },
                        ),
                    decreases miss@.len() - k,
                {
                    errs.push(SchemaError::UnknownPlaceholderField { name: miss[k].clone() });
                    k = k + 1;
                    proof {
                        assert(errs@ =~= base_errs + Seq::new(
                            k as nat,
                            |j: int| SchemaError::UnknownPlaceholderField { name: miss@[j] },
                        ));
                    }
                }
                proof {
                    assert(errs@.len() == base_errs.len() + missv.len());
                    assert forall|j: int| 0 <= j < missv.len() implies ((#[trigger] errs@[
                        base_errs.len() + j
                    ]) matches SchemaError::UnknownPlaceholderField { name } && name@ == missv[j])
                        by {
                        assert(errs@[base_errs.len() + j] == SchemaError::UnknownPlaceholderField {
                            name: miss@[j],
                        });
                        assert(miss@.map_values(|s: String| s@)[j] == missv[j]);
                    }
                }
                proof {
                    assert(violations_match(md.method, path, reqf, respf, errs@));
                    if errs@.len() == 0 {
                        assert(missv.len() == 0);
                        lemma_missing_empty_all_present(placeholder_names(segs), reqf);
                        assert forall|j: int|
                            0 <= j < segs.len() && segs[j] is Placeholder implies
                            spec_path_field_named(
                                reqf,
                                seg_placeholder_name(#[trigger] segs[j]),
                            ) is Some by {
                            lemma_placeholder_name_listed(segs, j);
                        }
                    }
                }
                (Some(metadata), errs)
            },
        }
}

/// The values of an executable value list, seen at the spec level.
pub open spec fn str_views(vs: Seq<String>) -> Seq<Seq<char>> {
    vs.map_values(|s: String| s@)
}

/// The `Option` view of an optional string.
pub open spec fn opt_str_view(q: Option<String>) -> Option<Seq<char>> {
    match q {
        Some(s) => Some(s@),
        None => None,
    }
}

/// The `name=value` pieces the query fields contribute, in declaration
/// order, with each value percent-escaped.
pub open spec fn query_pieces(fields: Seq<RequestField>, values: Seq<Seq<char>>) -> Seq<Seq<char>>
    decreases fields.len(),
{
    if fields.len() == 0 {
        Seq::empty()
    } else {
        (if fields[0].spec_kind() == RequestFieldKind::Query {
            seq![fields[0].spec_field().name@ + seq!['='] + pct_encode(values[0])]
        } else {
            Seq::empty()
        }) + query_pieces(fields.skip(1), values.skip(1))
    }
}

/// The query string: the pieces joined with `&`.
pub open spec fn spec_query_text(fields: Seq<RequestField>, values: Seq<Seq<char>>) -> Seq<char> {
    join_with(query_pieces(fields, values), '&')
}

/// The `(name, value)` pairs the query fields contribute, in order.
pub open spec fn query_members(fields: Seq<RequestField>, values: Seq<Seq<char>>) -> Seq<
    (Seq<char>, Seq<char>),
>
    decreases fields.len(),
{
    if fields.len() == 0 {
        Seq::empty()
    } else {
        (if fields[0].spec_kind() == RequestFieldKind::Query {
            seq![(fields[0].spec_field().name@, values[0])]
        } else {
            Seq::empty()
        }) + query_members(fields.skip(1), values.skip(1))
    }
}

/// The header pairs the request's header fields contribute, in order.
pub open spec fn req_header_pairs(fields: Seq<RequestField>, values: Seq<Seq<char>>) -> Seq<
    (Seq<char>, Seq<char>),
>
    decreases fields.len(),
{
    if fields.len() == 0 {
        Seq::empty()
    } else {
        (if fields[0].spec_kind() == RequestFieldKind::Header {
            seq![(fields[0].spec_header_name(), values[0])]
        } else {
            Seq::empty()
        }) + req_header_pairs(fields.skip(1), values.skip(1))
    }
}

/// The members the aggregate body fields contribute, in order.
pub open spec fn body_members(fields: Seq<RequestField>, values: Seq<Seq<char>>) -> Seq<
    (Seq<char>, Seq<char>),
>
    decreases fields.len(),
{
    if fields.len() == 0 {
        Seq::empty()
    } else {
        (if fields[0].spec_kind() == RequestFieldKind::Body {
            seq![(fields[0].spec_field().name@, values[0])]
        } else {
            Seq::empty()
        }) + body_members(fields.skip(1), values.skip(1))
    }
}

/// The whole-body value, when a field claims the whole body.
pub open spec fn newtype_value(fields: Seq<RequestField>, values: Seq<Seq<char>>) -> Option<
    Seq<char>,
>
    decreases fields.len(),
{
    if fields.len() == 0 {
        None
    } else if fields[0].spec_kind() == RequestFieldKind::NewtypeBody {
        Some(values[0])
    } else {
        newtype_value(fields.skip(1), values.skip(1))
    }
}

/// The body text of a request: the whole-body value quoted, or the
/// aggregate members as an object, or empty.
pub open spec fn spec_body_text(fields: Seq<RequestField>, values: Seq<Seq<char>>) -> Seq<char> {
    match newtype_value(fields, values) {
        Some(v) => quoted(v),
        None => if body_members(fields, values).len() > 0 {
            object_text(body_members(fields, values))
        } else {
            Seq::empty()
        },
    }
}

/// The value of the first path field with the given name.
pub open spec fn path_value(
    fields: Seq<RequestField>,
    values: Seq<Seq<char>>,
    name: Seq<char>,
) -> Option<Seq<char>>
    decreases fields.len(),
{
    if fields.len() == 0 {
        None
    } else if fields[0].spec_kind() == RequestFieldKind::Path && fields[0].spec_field().name@
        == name {
        Some(values[0])
    } else {
        path_value(fields.skip(1), values.skip(1), name)
    }
}

/// What one template segment contributes to the encoded path: literal
/// text verbatim, a placeholder the escaped value of its path field.
pub open spec fn piece_for(seg: Segment, fields: Seq<RequestField>, values: Seq<Seq<char>>) -> Seq<
    char,
> {
    match seg {
        Segment::Literal(l) => l@,
        Segment::Placeholder(n) => match path_value(fields, values, n@) {
            Some(v) => pct_encode(v),
            None => Seq::empty(),
        },
    }
}

/// The pieces joined with a leading `/` before each.
pub open spec fn slash_join(pieces: Seq<Seq<char>>) -> Seq<char>
    decreases pieces.len(),
{
    if pieces.len() == 0 {
        Seq::empty()
    } else {
        seq!['/'] + pieces[0] + slash_join(pieces.skip(1))
    }
}

/// The encoded pieces of the path, one per template segment.
pub open spec fn path_pieces(
    segs: Seq<Segment>,
    fields: Seq<RequestField>,
    values: Seq<Seq<char>>,
) -> Seq<Seq<char>> {
    Seq::new(segs.len(), |i: int| piece_for(segs[i], fields, values))
}

/// The encoded path: the template's pieces in template order, each after
/// a separator.
pub open spec fn spec_path_text(
    segs: Seq<Segment>,
    fields: Seq<RequestField>,
    values: Seq<Seq<char>>,
) -> Seq<char> {
    slash_join(path_pieces(segs, fields, values))
}

/// The segments of an incoming concrete path, the root separator
/// tolerated but not required.
pub open spec fn actual_pieces(path: Seq<char>) -> Seq<Seq<char>> {
    if path.len() >= 1 && path[0] == '/' {
        split_on(path.skip(1), '/')
    } else {
        split_on(path, '/')
    }
}

/// The decoded `name=value` pairs of the query pieces; `None` when a
/// piece has no `=` or its value unescapes badly.
pub open spec fn decode_query_pieces(pieces: Seq<Seq<char>>) -> Option<
    Seq<(Seq<char>, Seq<char>)>,
>
    decreases pieces.len(),
{
    if pieces.len() == 0 {
        Some(Seq::empty())
    } else {
        match split_first(pieces[0], '=') {
            None => None,
            Some((n, venc)) => match pct_decode(venc) {
                None => None,
                Some(v) => match decode_query_pieces(pieces.skip(1)) {
                    None => None,
                    Some(rest) => Some(seq![(n, v)] + rest),
                },
            },
        }
    }
}

/// The pairs an incoming query string decodes to; an absent query string
/// holds no pairs.
pub open spec fn query_pairs_of(q: Option<Seq<char>>) -> Option<Seq<(Seq<char>, Seq<char>)>> {
    match q {
        None => Some(Seq::empty()),
        Some(s) => decode_query_pieces(split_on(s, '&')),
    }
}

/// What one request field decodes to from an incoming envelope: a path
/// field reads its placeholder's segment, a query field its decoded query
/// pair, a header field its named header, and the body fields the body
/// text, each with the error its destination owes on failure.
pub open spec fn spec_decode_request_field(
    rf: RequestField,
    segs: Seq<Segment>,
    path: Seq<char>,
    q: Option<Seq<char>>,
    headers: Seq<(Seq<char>, Seq<char>)>,
    body: Seq<char>,
) -> Result<Seq<char>, RuntimeError> {
    match rf {
        RequestField::Path(f) => {
            let j = placeholder_pos(segs, f.name@);
            let aps = actual_pieces(path);
            if j < 0 || j >= aps.len() {
                Err(RuntimeError::PathSegmentDecodeError { field: f.name })
            } else {
                match pct_decode(aps[j]) {
                    Some(v) => Ok(v),
                    None => Err(RuntimeError::PathSegmentDecodeError { field: f.name }),
                }
            }
        },
        RequestField::Query(f) => match query_pairs_of(q) {
            None => Err(RuntimeError::QueryDecodeError),
            Some(ps) => match lookup_pair(ps, f.name@) {
                Some(v) => Ok(v),
                None => Err(RuntimeError::QueryDecodeError),
            },
        },
        RequestField::Header(_, h) => match lookup_pair(headers, h@) {
            Some(v) => Ok(v),
            None => Err(RuntimeError::MissingHeader { header: h }),
        },
        RequestField::NewtypeBody(_) => match parse_quoted(body) {
            Some(p) => if p.1.len() == 0 {
                Ok(p.0)
            } else {
                Err(RuntimeError::BodyDeserializeError)
            },
            None => Err(RuntimeError::BodyDeserializeError),
        },
        RequestField::Body(f) => match parse_object(body) {
            Some(ms) => match lookup_pair(ms, f.name@) {
                Some(v) => Ok(v),
                None => Err(RuntimeError::BodyDeserializeError),
            },
            None => Err(RuntimeError::BodyDeserializeError),
        },
    }
}

/// What the request fields from position `i` on decode to, in order; the
/// first failing field's error wins.
pub open spec fn spec_decode_request_from(
    fields: Seq<RequestField>,
    i: int,
    segs: Seq<Segment>,
    path: Seq<char>,
    q: Option<Seq<char>>,
    headers: Seq<(Seq<char>, Seq<char>)>,
    body: Seq<char>,
) -> Result<Seq<Seq<char>>, RuntimeError>
    decreases fields.len() - i,
{
    if i < 0 || i >= fields.len() {
        Ok(Seq::empty())
    } else {
        match spec_decode_request_field(fields[i], segs, path, q, headers, body) {
            Err(e) => Err(e),
            Ok(v) => match spec_decode_request_from(fields, i + 1, segs, path, q, headers, body) {
                Ok(rest) => Ok(seq![v] + rest),
                Err(e) => Err(e),
            },
        }
    }
}

/// The header pairs the response's header fields contribute, in order.
pub open spec fn resp_header_pairs(fields: Seq<ResponseField>, values: Seq<Seq<char>>) -> Seq<
    (Seq<char>, Seq<char>),
>
    decreases fields.len(),
{
    if fields.len() == 0 {
        Seq::empty()
    } else {
        (match fields[0] {
            ResponseField::Header(_, h) => seq![(h@, values[0])],
            _ => Seq::empty(),
        }) + resp_header_pairs(fields.skip(1), values.skip(1))
    }
}

/// The members the response's aggregate body fields contribute, in order.
pub open spec fn resp_body_members(fields: Seq<ResponseField>, values: Seq<Seq<char>>) -> Seq<
    (Seq<char>, Seq<char>),
>
    decreases fields.len(),
{
    if fields.len() == 0 {
        Seq::empty()
    } else {
        (match fields[0] {
            ResponseField::Body(f) => seq![(f.name@, values[0])],
            _ => Seq::empty(),
        }) + resp_body_members(fields.skip(1), values.skip(1))
    }
}

/// The response's whole-body value, when a field claims the whole body.
pub open spec fn resp_newtype_value(fields: Seq<ResponseField>, values: Seq<Seq<char>>) -> Option<
    Seq<char>,
>
    decreases fields.len(),
{
    if fields.len() == 0 {
        None
    } else if fields[0] is NewtypeBody {
        Some(values[0])
    } else {
        resp_newtype_value(fields.skip(1), values.skip(1))
    }
}

/// The body text of a response.
pub open spec fn spec_resp_body_text(fields: Seq<ResponseField>, values: Seq<Seq<char>>) -> Seq<
    char,
> {
    match resp_newtype_value(fields, values) {
        Some(v) => quoted(v),
        None => if resp_body_members(fields, values).len() > 0 {
            object_text(resp_body_members(fields, values))
        } else {
            Seq::empty()
        },
    }
}

/// The headers an encoded response carries: the field headers, then the
/// fixed content type of the structured format.
pub open spec fn resp_wire_headers(fields: Seq<ResponseField>, values: Seq<Seq<char>>) -> Seq<
    (Seq<char>, Seq<char>),
> {
    resp_header_pairs(fields, values) + seq![("Content-Type"@, "application/json"@)]
}

/// What an incoming response decodes to: a non-success status
/// short-circuits into its status error, with the body left unread; on
/// success the fields are distributed from headers and body.
pub open spec fn spec_decode_response(
    fields: Seq<ResponseField>,
    status: u16,
    headers: Seq<(Seq<char>, Seq<char>)>,
    body: Seq<char>,
) -> Result<Seq<Seq<char>>, RuntimeError> {
    if !is_success_status(status) {
        Err(RuntimeError::HttpStatusError { status })
    } else {
        spec_init_fields_from(fields, 0, headers, body)
    }
}

/// Wraps the alignment of segment and piece placeholder names for a
/// template that matches its text.
proof fn lemma_placeholder_names_align_wrap(segs: Seq<Segment>, path: Seq<char>)
    requires
        template_matches(segs, path),
    ensures
        placeholder_names(segs) == tpl_names(path),
{
    crate::template::lemma_placeholder_names_align(segs, split_on(path.skip(1), '/'));
}

/// Classified names inherit plainness and distinctness from the raw
/// declarations.
proof fn lemma_api_names_ok(
    raw_req: Seq<RawField>,
    reqf: Seq<RequestField>,
    raw_resp: Seq<RawField>,
    respf: Seq<ResponseField>,
)
    requires
        raw_names_ok(raw_req),
        raw_names_ok(raw_resp),
        reqf.len() == raw_req.len(),
        respf.len() == raw_resp.len(),
        forall|i: int|
            0 <= i < raw_req.len() ==> #[trigger] spec_classify(raw_req[i]) is Ok && reqf[i]
                == spec_classify(raw_req[i]).unwrap(),
        forall|i: int|
            0 <= i < raw_resp.len() ==> #[trigger] spec_classify_response(raw_resp[i]) is Ok
                && respf[i] == spec_classify_response(raw_resp[i]).unwrap(),
    ensures
        req_schema_names_ok(reqf),
        resp_schema_names_ok(respf),
{
    assert forall|i: int| 0 <= i < reqf.len() implies #[trigger] reqf[i].spec_field().name@
        == raw_req[i].name@ by {
        lemma_classify_keeps_name(raw_req[i]);
    }
    assert forall|i: int| 0 <= i < respf.len() implies #[trigger] respf[i].spec_field().name@
        == raw_resp[i].name@ by {
        lemma_classify_keeps_name(raw_resp[i]);
    }
}

/// Every placeholder segment's name stands in the name list.
proof fn lemma_placeholder_name_listed(segs: Seq<Segment>, j: int)
    requires
        0 <= j < segs.len(),
        segs[j] is Placeholder,
    ensures
        exists|k: int|
            0 <= k < placeholder_names(segs).len() && #[trigger] placeholder_names(segs)[k]
                == seg_placeholder_name(segs[j]),
    decreases segs.len(),
{
    if j == 0 {
        assert(placeholder_names(segs)[0] == seg_placeholder_name(segs[0]));
    } else {
        lemma_placeholder_name_listed(segs.skip(1), j - 1);
        let k = choose|k: int|
            0 <= k < placeholder_names(segs.skip(1)).len() && #[trigger] placeholder_names(
                segs.skip(1),
            )[k] == seg_placeholder_name(segs.skip(1)[j - 1]);
        let head = if segs[0] is Placeholder {
            1int
        } else {
            0int
        };
        assert(placeholder_names(segs)[k + head] == placeholder_names(segs.skip(1))[k]);
    }
}

/// The value of the first path field with the given name, from `i` on.
fn path_value_exec(
    fields: &Vec<RequestField>,
    values: &Vec<String>,
    name: &str,
    i: usize,
) -> (r: Option<String>)
    requires
        i <= fields@.len(),
        values@.len() == fields@.len(),
    ensures
        match r {
            Some(v) => path_value(
                fields@.skip(i as int),
                str_views(values@).skip(i as int),
                name@,
            ) == Some(v@),
            None => path_value(
                fields@.skip(i as int),
                str_views(values@).skip(i as int),
                name@,
            ) is None,
        },
    decreases fields@.len() - i,
{
    if i == fields.len() {
        proof {
            assert(fields@.skip(i as int) =~= Seq::<RequestField>::empty());
        }
        None
    } else {
        proof {
            assert(fields@.skip(i as int)[0] == fields@[i as int]);
            assert(fields@.skip(i as int).skip(1) =~= fields@.skip(i + 1));
            assert(str_views(values@).skip(i as int)[0] == values@[i as int]@);
            assert(str_views(values@).skip(i as int).skip(1) =~= str_views(values@).skip(i + 1));
        }
        let fi = &fields[i];
        if fi.kind() == RequestFieldKind::Path && crate::text::str_eq(
            fi.field().name.as_str(),
            name,
        ) {
            Some(values[i].clone())
        } else {
            path_value_exec(fields, values, name, i + 1)
        }
    }
}

/// Builds the encoded path from template segment `i` on.
fn build_path_from(
    segs: &Vec<Segment>,
    fields: &Vec<RequestField>,
    values: &Vec<String>,
    i: usize,
) -> (r: Vec<char>)
    requires
        i <= segs@.len(),
        values@.len() == fields@.len(),
    ensures
        r@ == slash_join(path_pieces(segs@, fields@, str_views(values@)).skip(i as int)),
    decreases segs@.len() - i,
{
    let ghost pieces = path_pieces(segs@, fields@, str_views(values@));
    if i == segs.len() {
        proof {
            assert(pieces.skip(i as int) =~= Seq::<Seq<char>>::empty());
        }
        Vec::new()
    } else {
        let piece: Vec<char> = match &segs[i] {
            Segment::Literal(l) => crate::text::str_chars(l.as_str()),
            Segment::Placeholder(n) => {
                match path_value_exec(fields, values, n.as_str(), 0) {
                    Some(v) => {
                        proof {
                            assert(fields@.skip(0) =~= fields@);
                            assert(str_views(values@).skip(0) =~= str_views(values@));
                        }
                        crate::percent::encode(&crate::text::str_chars(v.as_str()))
                    },
                    None => {
                        proof {
                            assert(fields@.skip(0) =~= fields@);
                            assert(str_views(values@).skip(0) =~= str_views(values@));
                        }
                        Vec::new()
                    },
                }
            },
        };
        proof {
            assert(pieces[i as int] == piece_for(segs@[i as int], fields@, str_views(values@)));
            assert(piece@ == pieces[i as int]);
        }
        let mut rest = build_path_from(segs, fields, values, i + 1);
        let mut r: Vec<char> = Vec::new();
        r.push('/');
        let mut p = piece;
        r.append(&mut p);
        r.append(&mut rest);
        proof {
            assert(pieces.skip(i as int)[0] == pieces[i as int]);
            assert(pieces.skip(i as int).skip(1) =~= pieces.skip(i + 1));
            assert(r@ =~= seq!['/'] + pieces[i as int] + slash_join(pieces.skip(i + 1)));
        }
        r
    }
}

/// Builds the query pieces from field `i` on.
fn query_pieces_from(fields: &Vec<RequestField>, values: &Vec<String>, i: usize) -> (r: Vec<
    Vec<char>,
>)
    requires
        i <= fields@.len(),
        values@.len() == fields@.len(),
    ensures
        r.deep_view() == query_pieces(fields@.skip(i as int), str_views(values@).skip(i as int)),
    decreases fields@.len() - i,
{
    if i == fields.len() {
        let r: Vec<Vec<char>> = Vec::new();
        proof {
            assert(fields@.skip(i as int) =~= Seq::<RequestField>::empty());
            assert(r.deep_view() =~~= Seq::<Seq<char>>::empty());
        }
        r
    } else {
        let rest = query_pieces_from(fields, values, i + 1);
        proof {
            assert(fields@.skip(i as int)[0] == fields@[i as int]);
            assert(fields@.skip(i as int).skip(1) =~= fields@.skip(i + 1));
            assert(str_views(values@).skip(i as int)[0] == values@[i as int]@);
            assert(str_views(values@).skip(i as int).skip(1) =~= str_views(values@).skip(i + 1));
        }
        let fi = &fields[i];
        if fi.kind() == RequestFieldKind::Query {
            let mut piece = crate::text::str_chars(fi.field().name.as_str());
            piece.push('=');
            let mut enc = crate::percent::encode(&crate::text::str_chars(values[i].as_str()));
            piece.append(&mut enc);
            let mut r: Vec<Vec<char>> = Vec::new();
            r.push(piece);
            let mut tail = rest;
            let ghost tail_snapshot = tail.deep_view();
            r.append(&mut tail);
            proof {
                assert(r@[0]@ =~= fields@[i as int].spec_field().name@ + seq!['='] + pct_encode(
                    values@[i as int]@,
                ));
                assert(r.deep_view() =~~= seq![r@[0]@] + tail_snapshot);
            }
            r
        } else {
            rest
        }
    }
}

/// Joins pieces with the separator, from piece `i` on.
fn join_pieces_from(pieces: &Vec<Vec<char>>, sep: char, i: usize) -> (r: Vec<char>)
    requires
        i <= pieces@.len(),
    ensures
        r@ == join_with(pieces.deep_view().skip(i as int), sep),
    decreases pieces@.len() - i,
{
    proof {
        assert(pieces.deep_view().len() == pieces@.len());
    }
    if i == pieces.len() {
        proof {
            assert(pieces.deep_view().skip(i as int) =~= Seq::<Seq<char>>::empty());
        }
        Vec::new()
    } else {
        let mut first: Vec<char> = Vec::new();
        let mut j: usize = 0;
        let src = &pieces[i];
        while j < src.len()
            invariant
                j <= src@.len(),
                first@ == src@.take(j as int),
            decreases src@.len() - j,
        {
            first.push(src[j]);
            j = j + 1;
            proof {
                assert(src@.take(j as int) =~= src@.take(j - 1).push(src@[j - 1]));
            }
        }
        proof {
            assert(first@ =~= src@);
            assert(pieces.deep_view().skip(i as int)[0] == pieces.deep_view()[i as int]);
            assert(pieces.deep_view()[i as int] =~= pieces@[i as int]@);
        }
        if i + 1 == pieces.len() {
            proof {
                assert(pieces.deep_view().skip(i as int).len() == 1);
            }
            first
        } else {
            let mut rest = join_pieces_from(pieces, sep, i + 1);
            let mut r = first;
            r.push(sep);
            r.append(&mut rest);
            proof {
                assert(pieces.deep_view().skip(i as int).skip(1) =~= pieces.deep_view().skip(
                    i + 1,
                ));
                assert(pieces.deep_view().skip(i as int).len() > 1);
                assert(r@ =~= pieces.deep_view()[i as int] + seq![sep] + join_with(
                    pieces.deep_view().skip(i + 1),
                    sep,
                ));
            }
            r
        }
    }
}

/// Builds the request's header pairs from field `i` on.
fn req_headers_from(fields: &Vec<RequestField>, values: &Vec<String>, i: usize) -> (r: Vec<
    (String, String),
>)
    requires
        i <= fields@.len(),
        values@.len() == fields@.len(),
    ensures
        header_views(r@) == req_header_pairs(
            fields@.skip(i as int),
            str_views(values@).skip(i as int),
        ),
    decreases fields@.len() - i,
{
    if i == fields.len() {
        let r: Vec<(String, String)> = Vec::new();
        proof {
            assert(fields@.skip(i as int) =~= Seq::<RequestField>::empty());
            assert(header_views(r@) =~~= Seq::<(Seq<char>, Seq<char>)>::empty());
        }
        r
    } else {
        let rest = req_headers_from(fields, values, i + 1);
        proof {
            assert(fields@.skip(i as int)[0] == fields@[i as int]);
            assert(fields@.skip(i as int).skip(1) =~= fields@.skip(i + 1));
            assert(str_views(values@).skip(i as int)[0] == values@[i as int]@);
            assert(str_views(values@).skip(i as int).skip(1) =~= str_views(values@).skip(i + 1));
        }
        match &fields[i] {
            RequestField::Header(_, h) => {
                let mut r: Vec<(String, String)> = Vec::new();
                r.push((h.clone(), values[i].clone()));
                let mut tail = rest;
                let ghost tail_snapshot = tail@;
                r.append(&mut tail);
                proof {
                    assert(header_views(r@) =~~= seq![(r@[0].0@, r@[0].1@)] + header_views(
                        tail_snapshot,
                    ));
                }
                r
            },
            _ => rest,
        }
    }
}

/// The whole-body value of the request, from field `i` on.
fn newtype_value_exec(fields: &Vec<RequestField>, values: &Vec<String>, i: usize) -> (r: Option<
    String,
>)
    requires
        i <= fields@.len(),
        values@.len() == fields@.len(),
    ensures
        match r {
            Some(v) => newtype_value(fields@.skip(i as int), str_views(values@).skip(i as int))
                == Some(v@),
            None => newtype_value(fields@.skip(i as int), str_views(values@).skip(i as int))
                is None,
        },
    decreases fields@.len() - i,
{
    if i == fields.len() {
        proof {
            assert(fields@.skip(i as int) =~= Seq::<RequestField>::empty());
        }
        None
    } else {
        proof {
            assert(fields@.skip(i as int)[0] == fields@[i as int]);
            assert(fields@.skip(i as int).skip(1) =~= fields@.skip(i + 1));
            assert(str_views(values@).skip(i as int)[0] == values@[i as int]@);
            assert(str_views(values@).skip(i as int).skip(1) =~= str_views(values@).skip(i + 1));
        }
        if fields[i].kind() == RequestFieldKind::NewtypeBody {
            Some(values[i].clone())
        } else {
            newtype_value_exec(fields, values, i + 1)
        }
    }
}

/// Builds the aggregate body members of the request, from field `i` on.
fn body_members_from(fields: &Vec<RequestField>, values: &Vec<String>, i: usize) -> (r: Vec<
    (Vec<char>, Vec<char>),
>)
    requires
        i <= fields@.len(),
        values@.len() == fields@.len(),
    ensures
        pair_views(r@) == body_members(fields@.skip(i as int), str_views(values@).skip(i as int)),
    decreases fields@.len() - i,
{
    if i == fields.len() {
        let r: Vec<(Vec<char>, Vec<char>)> = Vec::new();
        proof {
            assert(fields@.skip(i as int) =~= Seq::<RequestField>::empty());
            assert(pair_views(r@) =~~= Seq::<(Seq<char>, Seq<char>)>::empty());
        }
        r
    } else {
        let rest = body_members_from(fields, values, i + 1);
        proof {
            assert(fields@.skip(i as int)[0] == fields@[i as int]);
            assert(fields@.skip(i as int).skip(1) =~= fields@.skip(i + 1));
            assert(str_views(values@).skip(i as int)[0] == values@[i as int]@);
            assert(str_views(values@).skip(i as int).skip(1) =~= str_views(values@).skip(i + 1));
        }
        let fi = &fields[i];
        if fi.kind() == RequestFieldKind::Body {
            let name = crate::text::str_chars(fi.field().name.as_str());
            let value = crate::text::str_chars(values[i].as_str());
            let mut r: Vec<(Vec<char>, Vec<char>)> = Vec::new();
            r.push((name, value));
            let mut tail = rest;
            let ghost tail_snapshot = tail@;
            r.append(&mut tail);
            proof {
                assert(pair_views(r@) =~~= seq![(r@[0].0@, r@[0].1@)] + pair_views(tail_snapshot));
            }
            r
        } else {
            rest
        }
    }
}

/// Builds the object text of a nonempty member list, from member `i` on.
fn members_text_from(ms: &Vec<(Vec<char>, Vec<char>)>, i: usize) -> (r: Vec<char>)
    requires
        i <= ms@.len(),
    ensures
        r@ == crate::jsonish::members_text(pair_views(ms@).skip(i as int)),
    decreases ms@.len() - i,
{
    proof {
        assert(pair_views(ms@).len() == ms@.len());
    }
    if i == ms.len() {
        proof {
            assert(pair_views(ms@).skip(i as int) =~= Seq::<(Seq<char>, Seq<char>)>::empty());
        }
        Vec::new()
    } else {
        let mut member = quote_chars(&ms[i].0);
        member.push(':');
        let mut vq = quote_chars(&ms[i].1);
        member.append(&mut vq);
        proof {
            assert(pair_views(ms@).skip(i as int)[0] == pair_views(ms@)[i as int]);
            assert(member@ =~= crate::jsonish::member_text(pair_views(ms@)[i as int]));
        }
        if i + 1 == ms.len() {
            proof {
                assert(pair_views(ms@).skip(i as int).len() == 1);
            }
            member
        } else {
            let mut rest = members_text_from(ms, i + 1);
            let mut r = member;
            r.push(',');
            r.append(&mut rest);
            proof {
                assert(pair_views(ms@).skip(i as int).skip(1) =~= pair_views(ms@).skip(i + 1));
                assert(pair_views(ms@).skip(i as int).len() > 1);
                assert(r@ =~= crate::jsonish::member_text(pair_views(ms@)[i as int]) + seq![',']
                    + crate::jsonish::members_text(pair_views(ms@).skip(i + 1)));
            }
            r
        }
    }
}

/// Builds the request's body text.
fn build_request_body(fields: &Vec<RequestField>, values: &Vec<String>) -> (r: String)
    requires
        values@.len() == fields@.len(),
    ensures
        r@ == spec_body_text(fields@, str_views(values@)),
{
    proof {
        assert(fields@.skip(0) =~= fields@);
        assert(str_views(values@).skip(0) =~= str_views(values@));
    }
    match newtype_value_exec(fields, values, 0) {
        Some(v) => {
            let q = quote_chars(&crate::text::str_chars(v.as_str()));
            string_of_chars(&q)
        },
        None => {
            let members = body_members_from(fields, values, 0);
            if members.len() > 0 {
                proof {
                    assert(pair_views(members@).len() == members@.len());
                }
                let mut r: Vec<char> = Vec::new();
                r.push('{');
                let mut mid = members_text_from(&members, 0);
                proof {
                    assert(pair_views(members@).skip(0) =~= pair_views(members@));
                }
                r.append(&mut mid);
                r.push('}');
                proof {
                    assert(r@ =~= object_text(pair_views(members@)));
                }
                string_of_chars(&r)
            } else {
                proof {
                    assert(pair_views(members@).len() == members@.len());
                }
                String::new()
            }
        },
    }
}

impl Api {
    /// Encodes a request value, given one value per declared field in
    /// declaration order, into a raw HTTP request: the method's name, the
    /// path in template order with escaped placeholder values, the query
    /// string exactly when query fields exist, one header per header
    /// field, and the body in its mode.
    pub fn encode_request(&self, values: &Vec<String>) -> (r: RawHttpRequest)
        requires
            values@.len() == self.request.fields@.len(),
        ensures
            r.method@ == self.metadata.method.spec_name(),
            r.path@ == spec_path_text(
                self.metadata.template.segments@,
                self.request.fields@,
                str_views(values@),
            ),
            has_kind(self.request.fields@, RequestFieldKind::Query) ==> (r.query matches Some(qs)
                && qs@ == spec_query_text(self.request.fields@, str_views(values@))),
            !has_kind(self.request.fields@, RequestFieldKind::Query) ==> r.query is None,
            header_views(r.headers@) == req_header_pairs(
                self.request.fields@,
                str_views(values@),
            ),
            r.body@ == spec_body_text(self.request.fields@, str_views(values@)),
    {
        let method = String::from_str(self.metadata.method.as_str());
        proof {
            assert(path_pieces(
                self.metadata.template.segments@,
                self.request.fields@,
                str_views(values@),
            ).skip(0) =~= path_pieces(
                self.metadata.template.segments@,
                self.request.fields@,
                str_views(values@),
            ));
        }
        let pathchars = build_path_from(
            &self.metadata.template.segments,
            &self.request.fields,
            values,
            0,
        );
        let path = string_of_chars(&pathchars);
        let query: Option<String> = if crate::request::has_kind_exec(
            &self.request.fields,
            RequestFieldKind::Query,
        ) {
            proof {
                assert(self.request.fields@.skip(0) =~= self.request.fields@);
                assert(str_views(values@).skip(0) =~= str_views(values@));
            }
            let pieces = query_pieces_from(&self.request.fields, values, 0);
            proof {
                assert(pieces.deep_view().skip(0) =~= pieces.deep_view());
            }
            let joined = join_pieces_from(&pieces, '&', 0);
            Some(string_of_chars(&joined))
        } else {
            None
        };
        proof {
            assert(self.request.fields@.skip(0) =~= self.request.fields@);
            assert(str_views(values@).skip(0) =~= str_views(values@));
        }
        let headers = req_headers_from(&self.request.fields, values, 0);
        let body = build_request_body(&self.request.fields, values);
        RawHttpRequest { method, path, query, headers, body }
    }

    /// Decodes a raw HTTP request into one value per declared field, in
    /// declaration order; the first failing field's error wins.
    pub fn decode_request(&self, env: &RawHttpRequest) -> (r: Result<Vec<String>, RuntimeError>)
        ensures
            match r {
                Ok(vs) => spec_decode_request_from(
                    self.request.fields@,
                    0,
                    self.metadata.template.segments@,
                    env.path@,
                    opt_str_view(env.query),
                    header_views(env.headers@),
                    env.body@,
                ) == Ok::<Seq<Seq<char>>, RuntimeError>(str_views(vs@)),
                Err(e) => spec_decode_request_from(
                    self.request.fields@,
                    0,
                    self.metadata.template.segments@,
                    env.path@,
                    opt_str_view(env.query),
                    header_views(env.headers@),
                    env.body@,
                ) == Err::<Seq<Seq<char>>, RuntimeError>(e),
            },
    {
        decode_request_from(&self.request.fields, &self.metadata.template.segments, env, 0)
    }

    /// Encodes a response value, given one value per declared field in
    /// declaration order, into a raw HTTP response: success status, one
    /// header per header field followed by the fixed content type, and
    /// the body in its mode.
    pub fn encode_response(&self, values: &Vec<String>) -> (r: RawHttpResponse)
        requires
            values@.len() == self.response.fields@.len(),
        ensures
            r.status == 200,
            header_views(r.headers@) == resp_wire_headers(
                self.response.fields@,
                str_views(values@),
            ),
            r.body@ == spec_resp_body_text(self.response.fields@, str_views(values@)),
    {
        proof {
            assert(self.response.fields@.skip(0) =~= self.response.fields@);
            assert(str_views(values@).skip(0) =~= str_views(values@));
        }
        let mut headers = resp_headers_from(&self.response.fields, values, 0);
        let ghost field_headers = headers@;
        headers.push((String::from_str("Content-Type"), String::from_str("application/json")));
        proof {
            assert(header_views(headers@) =~~= header_views(field_headers) + seq![
                ("Content-Type"@, "application/json"@),
            ]);
        }
        let body = build_response_body(&self.response.fields, values);
        RawHttpResponse { status: 200, headers, body }
    }

    /// Decodes a raw HTTP response. A non-success status short-circuits
    /// into its status error without reading the body; on success the
    /// fields are distributed from headers and body, in declaration
    /// order, the first failing field's error winning.
    pub fn decode_response(&self, env: &RawHttpResponse) -> (r: Result<Vec<String>, RuntimeError>)
        ensures
            match r {
                Ok(vs) => spec_decode_response(
                    self.response.fields@,
                    env.status,
                    header_views(env.headers@),
                    env.body@,
                ) == Ok::<Seq<Seq<char>>, RuntimeError>(str_views(vs@)),
                Err(e) => spec_decode_response(
                    self.response.fields@,
                    env.status,
                    header_views(env.headers@),
                    env.body@,
                ) == Err::<Seq<Seq<char>>, RuntimeError>(e),
            },
    {
        if !(200 <= env.status && env.status < 300) {
            Err(RuntimeError::HttpStatusError { status: env.status })
        } else {
            self.response.init_fields(&env.headers, &env.body)
        }
    }
}

/// What the header fields read from incoming headers, in declaration
/// order; a missing header is its error.
pub open spec fn spec_parse_headers(
    fields: Seq<RequestField>,
    i: int,
    headers: Seq<(Seq<char>, Seq<char>)>,
) -> Result<Seq<Seq<char>>, RuntimeError>
    decreases fields.len() - i,
{
    if i < 0 || i >= fields.len() {
        Ok(Seq::empty())
    } else {
        match fields[i] {
            RequestField::Header(_, h) => match lookup_pair(headers, h@) {
                None => Err(RuntimeError::MissingHeader { header: h }),
                Some(v) => match spec_parse_headers(fields, i + 1, headers) {
                    Ok(rest) => Ok(seq![v] + rest),
                    Err(e) => Err(e),
                },
            },
            _ => spec_parse_headers(fields, i + 1, headers),
        }
    }
}

impl Request {
    /// The headers to add to an outgoing request: one pair per header
    /// field, in declaration order, given a full assignment.
    pub fn add_headers_to_request(&self, values: &Vec<String>) -> (r: Vec<(String, String)>)
        requires
            values@.len() == self.fields@.len(),
        ensures
            header_views(r@) == req_header_pairs(self.fields@, str_views(values@)),
    {
        proof {
            assert(self.fields@.skip(0) =~= self.fields@);
            assert(str_views(values@).skip(0) =~= str_views(values@));
        }
        req_headers_from(&self.fields, values, 0)
    }

    /// Reads the header fields' values out of incoming headers, in
    /// declaration order; the first absent header is its error.
    pub fn parse_headers_from_request(&self, headers: &Vec<(String, String)>) -> (r: Result<
        Vec<String>,
        RuntimeError,
    >)
        ensures
            match r {
                Ok(vs) => spec_parse_headers(self.fields@, 0, header_views(headers@)) == Ok::<
                    Seq<Seq<char>>,
                    RuntimeError,
                >(str_views(vs@)),
                Err(e) => spec_parse_headers(self.fields@, 0, header_views(headers@)) == Err::<
                    Seq<Seq<char>>,
                    RuntimeError,
                >(e),
            },
    {
        parse_headers_from(&self.fields, headers, 0)
    }
}

/// Reads the header fields' values from position `i` on.
fn parse_headers_from(
    fields: &Vec<RequestField>,
    headers: &Vec<(String, String)>,
    i: usize,
) -> (r: Result<Vec<String>, RuntimeError>)
    requires
        i <= fields@.len(),
    ensures
        match r {
            Ok(vs) => spec_parse_headers(fields@, i as int, header_views(headers@)) == Ok::<
                Seq<Seq<char>>,
                RuntimeError,
            >(str_views(vs@)),
            Err(e) => spec_parse_headers(fields@, i as int, header_views(headers@)) == Err::<
                Seq<Seq<char>>,
                RuntimeError,
            >(e),
        },
    decreases fields@.len() - i,
{
    if i == fields.len() {
        let vs: Vec<String> = Vec::new();
        proof {
            assert(str_views(vs@) =~~= Seq::<Seq<char>>::empty());
        }
        Ok(vs)
    } else {
        match &fields[i] {
            RequestField::Header(_, h) => {
                match lookup_header(headers, h.as_str()) {
                    None => Err(RuntimeError::MissingHeader { header: h.clone() }),
                    Some(v) => {
                        match parse_headers_from(fields, headers, i + 1) {
                            Ok(rest) => {
                                let mut vs: Vec<String> = Vec::new();
                                vs.push(v);
                                let mut tail = rest;
                                let ghost tail_snapshot = tail@;
                                vs.append(&mut tail);
                                proof {
                                    assert(str_views(vs@) =~~= seq![vs@[0]@] + str_views(
                                        tail_snapshot,
                                    ));
                                }
                                Ok(vs)
                            },
                            Err(e) => Err(e),
                        }
                    },
                }
            },
            _ => parse_headers_from(fields, headers, i + 1),
        }
    }
}

/// Splits an incoming concrete path into its segments, tolerating the
/// root separator.
fn actual_pieces_exec(path: &str) -> (r: Vec<Vec<char>>)
    ensures
        r.deep_view() == actual_pieces(path@),
{
    let chars = str_chars(path);
    if chars.len() >= 1 {
        let c0 = chars[0];
        if c0 == '/' {
            let mut rest: Vec<char> = Vec::new();
            let mut i: usize = 1;
            while i < chars.len()
                invariant
                    1 <= i <= chars@.len(),
                    rest@ == chars@.subrange(1, i as int),
                decreases chars@.len() - i,
            {
                rest.push(chars[i]);
                i = i + 1;
                proof {
                    assert(chars@.subrange(1, i as int) =~= chars@.subrange(1, i - 1).push(
                        chars@[i - 1],
                    ));
                }
            }
            proof {
                assert(rest@ =~= path@.skip(1));
            }
            split(&rest, '/')
        } else {
            split(&chars, '/')
        }
    } else {
        split(&chars, '/')
    }
}

/// The segment position of the first placeholder with the given name.
fn placeholder_index(segs: &Vec<Segment>, name: &str) -> (r: Option<usize>)
    ensures
        match r {
            Some(j) => placeholder_pos(segs@, name@) == j && j < segs@.len(),
            None => placeholder_pos(segs@, name@) == -1,
        },
{
    let mut i: usize = 0;
    while i < segs.len()
        invariant
            i <= segs@.len(),
            forall|j: int| 0 <= j < i ==> !seg_named(#[trigger] segs@[j], name@),
        decreases segs@.len() - i,
    {
        let named = match &segs[i] {
            Segment::Placeholder(n) => crate::text::str_eq(n.as_str(), name),
            Segment::Literal(_) => false,
        };
        if named {
            proof {
                lemma_placeholder_pos_skip(segs@, name@, i as int);
                assert(segs@.skip(i as int)[0] == segs@[i as int]);
                assert(placeholder_pos(segs@.skip(i as int), name@) == 0);
            }
            return Some(i);
        }
        i = i + 1;
    }
    proof {
        lemma_placeholder_pos_skip(segs@, name@, i as int);
        assert(segs@.skip(i as int).len() == 0);
    }
    None
}

/// Decodes the query pieces from position `i` on into pairs.
fn decode_query_pieces_from(pieces: &Vec<Vec<char>>, i: usize) -> (r: Option<
    Vec<(Vec<char>, Vec<char>)>,
>)
    requires
        i <= pieces@.len(),
    ensures
        match r {
            Some(ps) => decode_query_pieces(pieces.deep_view().skip(i as int)) == Some(
                pair_views(ps@),
            ),
            None => decode_query_pieces(pieces.deep_view().skip(i as int)) is None,
        },
    decreases pieces@.len() - i,
{
    proof {
        assert(pieces.deep_view().len() == pieces@.len());
    }
    if i == pieces.len() {
        let r: Vec<(Vec<char>, Vec<char>)> = Vec::new();
        proof {
            assert(pieces.deep_view().skip(i as int) =~= Seq::<Seq<char>>::empty());
            assert(pair_views(r@) =~~= Seq::<(Seq<char>, Seq<char>)>::empty());
        }
        Some(r)
    } else {
        proof {
            assert(pieces.deep_view().skip(i as int)[0] == pieces.deep_view()[i as int]);
            assert(pieces.deep_view()[i as int] =~= pieces@[i as int]@);
            assert(pieces.deep_view().skip(i as int).skip(1) =~= pieces.deep_view().skip(i + 1));
        }
        match divide_first(&pieces[i], '=') {
            None => None,
            Some(p) => {
                let (n, venc) = p;
                match crate::percent::decode(&venc) {
                    None => None,
                    Some(v) => {
                        match decode_query_pieces_from(pieces, i + 1) {
                            None => None,
                            Some(rest) => {
                                let mut r: Vec<(Vec<char>, Vec<char>)> = Vec::new();
                                r.push((n, v));
                                let mut tail = rest;
                                let ghost tail_snapshot = tail@;
                                r.append(&mut tail);
                                proof {
                                    assert(pair_views(r@) =~~= seq![(r@[0].0@, r@[0].1@)]
                                        + pair_views(tail_snapshot));
                                }
                                Some(r)
                            },
                        }
                    },
                }
            },
        }
    }
}

/// Decodes an incoming query string into its pairs; an absent one holds
/// none.
fn decode_query_pairs_exec(q: &Option<String>) -> (r: Option<Vec<(Vec<char>, Vec<char>)>>)
    ensures
        match r {
            Some(ps) => query_pairs_of(opt_str_view(*q)) == Some(pair_views(ps@)),
            None => query_pairs_of(opt_str_view(*q)) is None,
        },
{
    match q {
        None => {
            let r: Vec<(Vec<char>, Vec<char>)> = Vec::new();
            proof {
                assert(pair_views(r@) =~~= Seq::<(Seq<char>, Seq<char>)>::empty());
            }
            Some(r)
        },
        Some(s) => {
            let chars = str_chars(s.as_str());
            let pieces = split(&chars, '&');
            proof {
                assert(pieces.deep_view().skip(0) =~= pieces.deep_view());
            }
            decode_query_pieces_from(&pieces, 0)
        },
    }
}

/// Decodes one request field from an incoming envelope.
fn decode_request_field(rf: &RequestField, segs: &Vec<Segment>, env: &RawHttpRequest) -> (r:
    Result<String, RuntimeError>)
    ensures
        match r {
            Ok(v) => spec_decode_request_field(
                *rf,
                segs@,
                env.path@,
                opt_str_view(env.query),
                header_views(env.headers@),
                env.body@,
            ) == Ok::<Seq<char>, RuntimeError>(v@),
            Err(e) => spec_decode_request_field(
                *rf,
                segs@,
                env.path@,
                opt_str_view(env.query),
                header_views(env.headers@),
                env.body@,
            ) == Err::<Seq<char>, RuntimeError>(e),
        },
{
    match rf {
        RequestField::Path(f) => {
            let pieces = actual_pieces_exec(env.path.as_str());
            proof {
                assert(pieces.deep_view().len() == pieces@.len());
            }
            match placeholder_index(segs, f.name.as_str()) {
                None => Err(RuntimeError::PathSegmentDecodeError { field: f.name.clone() }),
                Some(j) => {
                    if j >= pieces.len() {
                        Err(RuntimeError::PathSegmentDecodeError { field: f.name.clone() })
                    } else {
                        proof {
                            assert(pieces.deep_view()[j as int] =~= pieces@[j as int]@);
                        }
                        match crate::percent::decode(&pieces[j]) {
                            Some(v) => Ok(string_of_chars(&v)),
                            None => Err(
                                RuntimeError::PathSegmentDecodeError { field: f.name.clone() },
                            ),
                        }
                    }
                },
            }
        },
        RequestField::Query(f) => {
            match decode_query_pairs_exec(&env.query) {
                None => Err(RuntimeError::QueryDecodeError),
                Some(ps) => {
                    match lookup_member(&ps, f.name.as_str()) {
                        Some(v) => Ok(string_of_chars(&v)),
                        None => Err(RuntimeError::QueryDecodeError),
                    }
                },
            }
        },
        RequestField::Header(_, h) => {
            match lookup_header(&env.headers, h.as_str()) {
                Some(v) => Ok(v),
                None => Err(RuntimeError::MissingHeader { header: h.clone() }),
            }
        },
        RequestField::NewtypeBody(_) => {
            let chars = str_chars(env.body.as_str());
            proof {
                assert(chars@.skip(0) =~= chars@);
            }
            match parse_quoted_at(&chars, 0) {
                Some(p) => {
                    let (content, j) = p;
                    if j == chars.len() {
                        proof {
                            assert(chars@.skip(j as int).len() == 0);
                        }
                        Ok(string_of_chars(&content))
                    } else {
                        proof {
                            assert(chars@.skip(j as int).len() > 0);
                        }
                        Err(RuntimeError::BodyDeserializeError)
                    }
                },
                None => Err(RuntimeError::BodyDeserializeError),
            }
        },
        RequestField::Body(f) => {
            let chars = str_chars(env.body.as_str());
            match parse_object_chars(&chars) {
                Some(ms) => {
                    match lookup_member(&ms, f.name.as_str()) {
                        Some(v) => Ok(string_of_chars(&v)),
                        None => Err(RuntimeError::BodyDeserializeError),
                    }
                },
                None => Err(RuntimeError::BodyDeserializeError),
            }
        },
    }
}

/// Decodes the request fields from position `i` on.
fn decode_request_from(
    fields: &Vec<RequestField>,
    segs: &Vec<Segment>,
    env: &RawHttpRequest,
    i: usize,
) -> (r: Result<Vec<String>, RuntimeError>)
    requires
        i <= fields@.len(),
    ensures
        match r {
            Ok(vs) => spec_decode_request_from(
                fields@,
                i as int,
                segs@,
                env.path@,
                opt_str_view(env.query),
                header_views(env.headers@),
                env.body@,
            ) == Ok::<Seq<Seq<char>>, RuntimeError>(str_views(vs@)),
            Err(e) => spec_decode_request_from(
                fields@,
                i as int,
                segs@,
                env.path@,
                opt_str_view(env.query),
                header_views(env.headers@),
                env.body@,
            ) == Err::<Seq<Seq<char>>, RuntimeError>(e),
        },
    decreases fields@.len() - i,
{
    if i == fields.len() {
        let vs: Vec<String> = Vec::new();
        proof {
            assert(str_views(vs@) =~~= Seq::<Seq<char>>::empty());
        }
        Ok(vs)
    } else {
        let v = match decode_request_field(&fields[i], segs, env) {
            Ok(v) => v,
            Err(e) => {
                return Err(e);
            },
        };
        match decode_request_from(fields, segs, env, i + 1) {
            Ok(rest) => {
                let mut vs: Vec<String> = Vec::new();
                vs.push(v);
                let mut tail = rest;
                let ghost tail_snapshot = tail@;
                vs.append(&mut tail);
                proof {
                    assert(str_views(vs@) =~~= seq![vs@[0]@] + str_views(tail_snapshot));
                }
                Ok(vs)
            },
            Err(e) => Err(e),
        }
    }
}

/// Builds the response's header pairs from field `i` on.
fn resp_headers_from(fields: &Vec<ResponseField>, values: &Vec<String>, i: usize) -> (r: Vec<
    (String, String),
>)
    requires
        i <= fields@.len(),
        values@.len() == fields@.len(),
    ensures
        header_views(r@) == resp_header_pairs(
            fields@.skip(i as int),
            str_views(values@).skip(i as int),
        ),
    decreases fields@.len() - i,
{
    if i == fields.len() {
        let r: Vec<(String, String)> = Vec::new();
        proof {
            assert(fields@.skip(i as int) =~= Seq::<ResponseField>::empty());
            assert(header_views(r@) =~~= Seq::<(Seq<char>, Seq<char>)>::empty());
        }
        r
    } else {
        let rest = resp_headers_from(fields, values, i + 1);
        proof {
            assert(fields@.skip(i as int)[0] == fields@[i as int]);
            assert(fields@.skip(i as int).skip(1) =~= fields@.skip(i + 1));
            assert(str_views(values@).skip(i as int)[0] == values@[i as int]@);
            assert(str_views(values@).skip(i as int).skip(1) =~= str_views(values@).skip(i + 1));
        }
        match &fields[i] {
            ResponseField::Header(_, h) => {
                let mut r: Vec<(String, String)> = Vec::new();
                r.push((h.clone(), values[i].clone()));
                let mut tail = rest;
                let ghost tail_snapshot = tail@;
                r.append(&mut tail);
                proof {
                    assert(header_views(r@) =~~= seq![(r@[0].0@, r@[0].1@)] + header_views(
                        tail_snapshot,
                    ));
                }
                r
            },
            _ => rest,
        }
    }
}

/// The whole-body value of the response, from field `i` on.
fn resp_newtype_exec(fields: &Vec<ResponseField>, values: &Vec<String>, i: usize) -> (r: Option<
    String,
>)
    requires
        i <= fields@.len(),
        values@.len() == fields@.len(),
    ensures
        match r {
            Some(v) => resp_newtype_value(
                fields@.skip(i as int),
                str_views(values@).skip(i as int),
            ) == Some(v@),
            None => resp_newtype_value(
                fields@.skip(i as int),
                str_views(values@).skip(i as int),
            ) is None,
        },
    decreases fields@.len() - i,
{
    if i == fields.len() {
        proof {
            assert(fields@.skip(i as int) =~= Seq::<ResponseField>::empty());
        }
        None
    } else {
        proof {
            assert(fields@.skip(i as int)[0] == fields@[i as int]);
            assert(fields@.skip(i as int).skip(1) =~= fields@.skip(i + 1));
            assert(str_views(values@).skip(i as int)[0] == values@[i as int]@);
            assert(str_views(values@).skip(i as int).skip(1) =~= str_views(values@).skip(i + 1));
        }
        let is_newtype = match &fields[i] {
            ResponseField::NewtypeBody(_) => true,
            _ => false,
        };
        if is_newtype {
            Some(values[i].clone())
        } else {
            resp_newtype_exec(fields, values, i + 1)
        }
    }
}

/// Builds the response's aggregate body members from field `i` on.
fn resp_members_from(fields: &Vec<ResponseField>, values: &Vec<String>, i: usize) -> (r: Vec<
    (Vec<char>, Vec<char>),
>)
    requires
        i <= fields@.len(),
        values@.len() == fields@.len(),
    ensures
        pair_views(r@) == resp_body_members(
            fields@.skip(i as int),
            str_views(values@).skip(i as int),
        ),
    decreases fields@.len() - i,
{
    if i == fields.len() {
        let r: Vec<(Vec<char>, Vec<char>)> = Vec::new();
        proof {
            assert(fields@.skip(i as int) =~= Seq::<ResponseField>::empty());
            assert(pair_views(r@) =~~= Seq::<(Seq<char>, Seq<char>)>::empty());
        }
        r
    } else {
        let rest = resp_members_from(fields, values, i + 1);
        proof {
            assert(fields@.skip(i as int)[0] == fields@[i as int]);
            assert(fields@.skip(i as int).skip(1) =~= fields@.skip(i + 1));
            assert(str_views(values@).skip(i as int)[0] == values@[i as int]@);
            assert(str_views(values@).skip(i as int).skip(1) =~= str_views(values@).skip(i + 1));
        }
        match &fields[i] {
            ResponseField::Body(f) => {
                let name = str_chars(f.name.as_str());
                let value = str_chars(values[i].as_str());
                let mut r: Vec<(Vec<char>, Vec<char>)> = Vec::new();
                r.push((name, value));
                let mut tail = rest;
                let ghost tail_snapshot = tail@;
                r.append(&mut tail);
                proof {
                    assert(pair_views(r@) =~~= seq![(r@[0].0@, r@[0].1@)] + pair_views(
                        tail_snapshot,
                    ));
                }
                r
            },
            _ => rest,
        }
    }
}

/// Builds the response's body text.
fn build_response_body(fields: &Vec<ResponseField>, values: &Vec<String>) -> (r: String)
    requires
        values@.len() == fields@.len(),
    ensures
        r@ == spec_resp_body_text(fields@, str_views(values@)),
{
    proof {
        assert(fields@.skip(0) =~= fields@);
        assert(str_views(values@).skip(0) =~= str_views(values@));
    }
    match resp_newtype_exec(fields, values, 0) {
        Some(v) => {
            let q = quote_chars(&str_chars(v.as_str()));
            string_of_chars(&q)
        },
        None => {
            let members = resp_members_from(fields, values, 0);
            if members.len() > 0 {
                proof {
                    assert(pair_views(members@).len() == members@.len());
                }
                let mut r: Vec<char> = Vec::new();
                r.push('{');
                let mut mid = members_text_from(&members, 0);
                proof {
                    assert(pair_views(members@).skip(0) =~= pair_views(members@));
                }
                r.append(&mut mid);
                r.push('}');
                proof {
                    assert(r@ =~= object_text(pair_views(members@)));
                }
                string_of_chars(&r)
            } else {
                proof {
                    assert(pair_views(members@).len() == members@.len());
                }
                String::new()
            }
        },
    }
}

} // verus!
