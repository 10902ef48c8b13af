//! The response schema: classified fields and the decode-side
//! distribution of header and body values.

use vstd::prelude::*;

use crate::envelope::header_views;
use crate::errors::{RuntimeError, SchemaError};
use crate::field::{Field, Meta, RawField};
use crate::jsonish::{lookup_member, lookup_pair, pair_views, parse_object, parse_object_chars,
    parse_quoted, parse_quoted_at};
use crate::envelope::lookup_header;
use crate::text::{str_chars, str_eq, string_of_chars};

verus! {

/// A response field resolved to the place it occupies on the wire. A
/// response carries data only in headers and in the body.
#[derive(Debug)]
pub enum ResponseField {
    /// Part of the aggregate body object.
    Body(Field),
    /// A header, under the given header name.
    Header(Field, String),
    /// The whole body, with no wrapping object.
    NewtypeBody(Field),
}

impl ResponseField {
    /// Whether this field travels in the aggregate body.
    pub fn is_body(&self) -> (r: bool)
        ensures
            r == (self is Body),
    {
        match self {
            ResponseField::Body(_) => true,
            _ => false,
        }
    }

    /// The inner declared field.
    pub open spec fn spec_field(&self) -> Field {
        match self {
            ResponseField::Body(f) => *f,
            ResponseField::Header(f, _) => *f,
            ResponseField::NewtypeBody(f) => *f,
        }
    }
}

/// The `response` section of an endpoint description, before
/// classification.
#[derive(Debug)]
pub struct RawResponse {
    pub fields: Vec<RawField>,
}

/// The validated response schema: its classified fields, in declaration
/// order.
#[derive(Debug)]
pub struct Response {
    pub fields: Vec<ResponseField>,
}

/// The classification of one declared response field: no annotation means
/// the aggregate body, `body` the whole body, `header = <name>` a header;
/// any other annotation is refused, as is any second one.
pub open spec fn spec_classify_response(rf: RawField) -> Result<ResponseField, SchemaError> {
    let f = Field { name: rf.name, ty: rf.ty };
    if rf.attrs@.len() == 0 {
        Ok(ResponseField::Body(f))
    } else {
        match spec_response_attr_field(rf.attrs@[0], f) {
            None => Err(SchemaError::UnknownAttributeKey { field: rf.name }),
            Some(cf) => if rf.attrs@.len() == 1 {
                Ok(cf)
            } else {
                Err(SchemaError::DuplicateKindAttribute { field: rf.name })
            },
        }
    }
}

/// The classified response field one annotation resolves to, if any.
pub open spec fn spec_response_attr_field(m: Meta, f: Field) -> Option<ResponseField> {
    match m {
        Meta::Word(w) => if w@ == "body"@ {
            Some(ResponseField::NewtypeBody(f))
        } else {
            None
        },
        Meta::NameValue(k, v) => if k@ == "header"@ {
            Some(ResponseField::Header(f, v))
        } else {
            None
        },
    }
}

/// The classification errors of the response fields from position `i` on.
pub open spec fn response_classify_errors_from(fields: Seq<RawField>, i: int) -> Seq<SchemaError>
    decreases fields.len() - i,
{
    if i < 0 || i >= fields.len() {
        Seq::empty()
    } else {
        match spec_classify_response(fields[i]) {
            Ok(_) => response_classify_errors_from(fields, i + 1),
            Err(e) => seq![e] + response_classify_errors_from(fields, i + 1),
        }
    }
}

/// Classifies one declared response field.
pub fn classify_response_field(rf: &RawField) -> (r: Result<ResponseField, SchemaError>)
    ensures
        r == spec_classify_response(*rf),
{
    let field = Field { name: rf.name.clone(), ty: rf.ty.clone() };
    if rf.attrs.len() == 0 {
        Ok(ResponseField::Body(field))
    } else {
        let first = match &rf.attrs[0] {
            Meta::Word(w) => {
                if str_eq(w.as_str(), "body") {
                    Some(ResponseField::NewtypeBody(field))
                } else {
                    None
                }
            },
            Meta::NameValue(k, v) => {
                if str_eq(k.as_str(), "header") {
                    Some(ResponseField::Header(field, v.clone()))
                } else {
                    None
                }
            },
        };
        match first {
            None => Err(SchemaError::UnknownAttributeKey { field: rf.name.clone() }),
            Some(cf) => if rf.attrs.len() == 1 {
                Ok(cf)
            } else {
                Err(SchemaError::DuplicateKindAttribute { field: rf.name.clone() })
            },
        }
    }
}

/// How many response fields have the aggregate body kind.
pub open spec fn resp_count_body(fields: Seq<ResponseField>) -> int
    decreases fields.len(),
{
    if fields.len() == 0 {
        0
    } else {
        (if fields[0] is Body {
            1int
        } else {
            0int
        }) + resp_count_body(fields.skip(1))
    }
}

/// How many response fields claim the whole body.
pub open spec fn resp_count_newtype(fields: Seq<ResponseField>) -> int
    decreases fields.len(),
{
    if fields.len() == 0 {
        0
    } else {
        (if fields[0] is NewtypeBody {
            1int
        } else {
            0int
        }) + resp_count_newtype(fields.skip(1))
    }
}

/// The names of the response fields of the aggregate body kind.
pub open spec fn resp_body_names(fields: Seq<ResponseField>) -> Seq<Seq<char>>
    decreases fields.len(),
{
    if fields.len() == 0 {
        Seq::empty()
    } else {
        (if fields[0] is Body {
            seq![fields[0].spec_field().name@]
        } else {
            Seq::empty()
        }) + resp_body_names(fields.skip(1))
    }
}

/// The names of the response fields that claim the whole body.
pub open spec fn resp_newtype_names(fields: Seq<ResponseField>) -> Seq<Seq<char>>
    decreases fields.len(),
{
    if fields.len() == 0 {
        Seq::empty()
    } else {
        (if fields[0] is NewtypeBody {
            seq![fields[0].spec_field().name@]
        } else {
            Seq::empty()
        }) + resp_newtype_names(fields.skip(1))
    }
}

/// What one response field decodes to, given the incoming headers and the
/// body text: a header field reads its named header, a whole-body field
/// reads the body as one quoted string, and an aggregate body field reads
/// its member of the body object.
pub open spec fn spec_decode_response_field(
    rf: ResponseField,
    headers: Seq<(Seq<char>, Seq<char>)>,
    body: Seq<char>,
) -> Result<Seq<char>, RuntimeError> {
    match rf {
        ResponseField::Header(f, h) => match lookup_pair(headers, h@) {
            Some(v) => Ok(v),
            None => Err(RuntimeError::MissingHeader { header: h }),
        },
        ResponseField::NewtypeBody(f) => match parse_quoted(body) {
            Some((v, rest)) => if rest.len() == 0 {
                Ok(v)
            } else {
                Err(RuntimeError::BodyDeserializeError)
            },
            None => Err(RuntimeError::BodyDeserializeError),
        },
        ResponseField::Body(f) => match parse_object(body) {
            Some(ms) => match lookup_pair(ms, f.name@) {
                Some(v) => Ok(v),
                None => Err(RuntimeError::BodyDeserializeError),
            },
            None => Err(RuntimeError::BodyDeserializeError),
        },
    }
}

/// What the response fields from position `i` on decode to, in order; the
/// first failing field's error wins.
pub open spec fn spec_init_fields_from(
    fields: Seq<ResponseField>,
    i: int,
    headers: Seq<(Seq<char>, Seq<char>)>,
    body: Seq<char>,
) -> Result<Seq<Seq<char>>, RuntimeError>
    decreases fields.len() - i,
{
    if i < 0 || i >= fields.len() {
        Ok(Seq::empty())
    } else {
        match spec_decode_response_field(fields[i], headers, body) {
            Err(e) => Err(e),
            Ok(v) => match spec_init_fields_from(fields, i + 1, headers, body) {
                Ok(rest) => Ok(seq![v] + rest),
                Err(e) => Err(e),
            },
        }
    }
}

impl Response {
    /// Whether any field travels in the aggregate body.
    pub fn has_body_fields(&self) -> (r: bool)
        ensures
            r == (resp_count_body(self.fields@) > 0),
    {
        let mut i: usize = 0;
        proof {
            assert(self.fields@.skip(0) =~= self.fields@);
        }
        while i < self.fields.len()
            invariant
                i <= self.fields@.len(),
                resp_count_body(self.fields@) == resp_count_body(self.fields@.skip(i as int)),
            decreases self.fields@.len() - i,
        {
            proof {
                assert(self.fields@.skip(i as int)[0] == self.fields@[i as int]);
                assert(self.fields@.skip(i as int).skip(1) =~= self.fields@.skip(i + 1));
                lemma_resp_count_body_nonneg(self.fields@.skip(i + 1));
            }
            if self.fields[i].is_body() {
                return true;
            }
            i = i + 1;
        }
        proof {
            assert(self.fields@.skip(i as int).len() == 0);
        }
        false
    }

    /// Whether the schema declares any field at all.
    pub fn has_fields(&self) -> (r: bool)
        ensures
            r == (self.fields@.len() > 0),
    {
        self.fields.len() > 0
    }

    /// Classifies the declared fields of a `response` section, reporting
    /// the classification errors of every offending field together.
    pub fn try_from(raw: &RawResponse) -> (r: Result<Response, Vec<SchemaError>>)
        ensures
            r is Ok <==> forall|i: int|
                0 <= i < raw.fields@.len() ==> #[trigger] spec_classify_response(
                    raw.fields@[i],
                ) is Ok,
            r matches Ok(resp) ==> resp.fields@.len() == raw.fields@.len() && forall|i: int|
                0 <= i < raw.fields@.len() ==> #[trigger] resp.fields@[i]
                    == spec_classify_response(raw.fields@[i]).unwrap(),
            r matches Err(es) ==> es@ == response_classify_errors_from(raw.fields@, 0)
                && es@.len() > 0,
    {
        let mut outs: Vec<ResponseField> = Vec::new();
        let mut errs: Vec<SchemaError> = Vec::new();
        let n = raw.fields.len();
        let mut i: usize = 0;
        while i < n
            invariant
                n == raw.fields@.len(),
                i <= n,
                errs@.len() == 0 ==> outs@.len() == i && forall|j: int|
                    0 <= j < i ==> #[trigger] spec_classify_response(raw.fields@[j]) is Ok
                        && outs@[j] == spec_classify_response(raw.fields@[j]).unwrap(),
                response_classify_errors_from(raw.fields@, 0) == errs@
                    + response_classify_errors_from(raw.fields@, i as int),
                errs@.len() > 0 ==> exists|j: int|
                    0 <= j < i && !(#[trigger] spec_classify_response(raw.fields@[j]) is Ok),
            decreases n - i,
        {
            match classify_response_field(&raw.fields[i]) {
                Ok(cf) => {
                    if errs.len() == 0 {
                        outs.push(cf);
                    }
                },
                Err(e) => {
                    errs.push(e);
                },
            }
            i = i + 1;
        }
        proof {
            assert(response_classify_errors_from(raw.fields@, n as int) =~= Seq::<
                SchemaError,
            >::empty());
            assert(response_classify_errors_from(raw.fields@, 0) =~= errs@);
        }
        if errs.len() == 0 {
            Ok(Response { fields: outs })
        } else {
            Err(errs)
        }
    }

    /// Distributes the incoming headers and body onto the declared fields,
    /// in declaration order: the decoded value list, or the first failing
    /// field's error.
    pub fn init_fields(&self, headers: &Vec<(String, String)>, body: &String) -> (r: Result<
        Vec<String>,
        RuntimeError,
    >)
        ensures
            match r {
                Ok(vs) => spec_init_fields_from(self.fields@, 0, header_views(headers@), body@)
                    == Ok::<Seq<Seq<char>>, RuntimeError>(vs@.map_values(|s: String| s@)),
                Err(e) => spec_init_fields_from(self.fields@, 0, header_views(headers@), body@)
                    == Err::<Seq<Seq<char>>, RuntimeError>(e),
            },
    {
        init_fields_from(&self.fields, 0, headers, body)
    }
}

/// How many response fields claim the whole body.
pub fn count_newtype(fields: &Vec<ResponseField>) -> (r: usize)
    ensures
        r == resp_count_newtype(fields@),
{
    proof {
        lemma_resp_count_bounds(fields@);
        assert(fields@.skip(0) =~= fields@);
    }
    count_newtype_from(fields, 0)
}

fn count_newtype_from(fields: &Vec<ResponseField>, i: usize) -> (r: usize)
    requires
        i <= fields@.len(),
    ensures
        r == resp_count_newtype(fields@.skip(i as int)),
    decreases fields@.len() - i,
{
    proof {
        lemma_resp_count_bounds(fields@.skip(i as int));
    }
    if i == fields.len() {
        proof {
            assert(fields@.skip(i as int) =~= Seq::<ResponseField>::empty());
        }
        0
    } else {
        let rest = count_newtype_from(fields, i + 1);
        proof {
            assert(fields@.skip(i as int)[0] == fields@[i as int]);
            assert(fields@.skip(i as int).skip(1) =~= fields@.skip(i + 1));
            lemma_resp_count_bounds(fields@.skip(i + 1));
        }
        match &fields[i] {
            ResponseField::NewtypeBody(_) => rest + 1,
            _ => rest,
        }
    }
}

/// How many response fields have the aggregate body kind.
pub fn count_body(fields: &Vec<ResponseField>) -> (r: usize)
    ensures
        r == resp_count_body(fields@),
{
    proof {
        lemma_resp_count_bounds(fields@);
        assert(fields@.skip(0) =~= fields@);
    }
    count_body_from(fields, 0)
}

fn count_body_from(fields: &Vec<ResponseField>, i: usize) -> (r: usize)
    requires
        i <= fields@.len(),
    ensures
        r == resp_count_body(fields@.skip(i as int)),
    decreases fields@.len() - i,
{
    proof {
        lemma_resp_count_bounds(fields@.skip(i as int));
    }
    if i == fields.len() {
        proof {
            assert(fields@.skip(i as int) =~= Seq::<ResponseField>::empty());
        }
        0
    } else {
        let rest = count_body_from(fields, i + 1);
        proof {
            assert(fields@.skip(i as int)[0] == fields@[i as int]);
            assert(fields@.skip(i as int).skip(1) =~= fields@.skip(i + 1));
            lemma_resp_count_bounds(fields@.skip(i + 1));
        }
        match &fields[i] {
            ResponseField::Body(_) => rest + 1,
            _ => rest,
        }
    }
}

/// The names of the whole-body fields, in declaration order.
pub fn newtype_names(fields: &Vec<ResponseField>) -> (r: Vec<String>)
    ensures
        r@.map_values(|s: String| s@) == resp_newtype_names(fields@),
{
    proof {
        assert(fields@.skip(0) =~= fields@);
    }
    newtype_names_from(fields, 0)
}

fn newtype_names_from(fields: &Vec<ResponseField>, i: usize) -> (r: Vec<String>)
    requires
        i <= fields@.len(),
    ensures
        r@.map_values(|s: String| s@) == resp_newtype_names(fields@.skip(i as int)),
    decreases fields@.len() - i,
{
    if i == fields.len() {
        let r: Vec<String> = Vec::new();
        proof {
            assert(fields@.skip(i as int) =~= Seq::<ResponseField>::empty());
            assert(r@.map_values(|s: String| s@) =~~= Seq::<Seq<char>>::empty());
        }
        r
    } else {
        let rest = newtype_names_from(fields, i + 1);
        proof {
            assert(fields@.skip(i as int)[0] == fields@[i as int]);
            assert(fields@.skip(i as int).skip(1) =~= fields@.skip(i + 1));
        }
        match &fields[i] {
            ResponseField::NewtypeBody(f) => {
                let mut r: Vec<String> = Vec::new();
                r.push(f.name.clone());
                let mut tail = rest;
                let ghost tail_snapshot = tail@;
                r.append(&mut tail);
                proof {
                    assert(r@.map_values(|s: String| s@) =~~= seq![r@[0]@]
                        + tail_snapshot.map_values(|s: String| s@));
                }
                r
            },
            _ => rest,
        }
    }
}

/// The names of the aggregate body fields, in declaration order.
pub fn body_names(fields: &Vec<ResponseField>) -> (r: Vec<String>)
    ensures
        r@.map_values(|s: String| s@) == resp_body_names(fields@),
{
    proof {
        assert(fields@.skip(0) =~= fields@);
    }
    body_names_from(fields, 0)
}

fn body_names_from(fields: &Vec<ResponseField>, i: usize) -> (r: Vec<String>)
    requires
        i <= fields@.len(),
    ensures
        r@.map_values(|s: String| s@) == resp_body_names(fields@.skip(i as int)),
    decreases fields@.len() - i,
{
    if i == fields.len() {
        let r: Vec<String> = Vec::new();
        proof {
            assert(fields@.skip(i as int) =~= Seq::<ResponseField>::empty());
            assert(r@.map_values(|s: String| s@) =~~= Seq::<Seq<char>>::empty());
        }
        r
    } else {
        let rest = body_names_from(fields, i + 1);
        proof {
            assert(fields@.skip(i as int)[0] == fields@[i as int]);
            assert(fields@.skip(i as int).skip(1) =~= fields@.skip(i + 1));
        }
        match &fields[i] {
            ResponseField::Body(f) => {
                let mut r: Vec<String> = Vec::new();
                r.push(f.name.clone());
                let mut tail = rest;
                let ghost tail_snapshot = tail@;
                r.append(&mut tail);
                proof {
                    assert(r@.map_values(|s: String| s@) =~~= seq![r@[0]@]
                        + tail_snapshot.map_values(|s: String| s@));
                }
                r
            },
            _ => rest,
        }
    }
}

/// The body-mode counts are bounded by the field count.
pub proof fn lemma_resp_count_bounds(fields: Seq<ResponseField>)
    ensures
        0 <= resp_count_body(fields) <= fields.len(),
        0 <= resp_count_newtype(fields) <= fields.len(),
    decreases fields.len(),
{
    if fields.len() != 0 {
        lemma_resp_count_bounds(fields.skip(1));
    }
}

/// The body count is never negative.
proof fn lemma_resp_count_body_nonneg(fields: Seq<ResponseField>)
    ensures
        resp_count_body(fields) >= 0,
    decreases fields.len(),
{
    if fields.len() != 0 {
        lemma_resp_count_body_nonneg(fields.skip(1));
    }
}

/// Decodes the fields from position `i` on.
fn init_fields_from(
    fields: &Vec<ResponseField>,
    i: usize,
    headers: &Vec<(String, String)>,
    body: &String,
) -> (r: Result<Vec<String>, RuntimeError>)
    requires
        i <= fields@.len(),
    ensures
        match r {
            Ok(vs) => spec_init_fields_from(fields@, i as int, header_views(headers@), body@)
                == Ok::<Seq<Seq<char>>, RuntimeError>(vs@.map_values(|s: String| s@)),
            Err(e) => spec_init_fields_from(fields@, i as int, header_views(headers@), body@)
                == Err::<Seq<Seq<char>>, RuntimeError>(e),
        },
    decreases fields@.len() - i,
{
    if i == fields.len() {
        let vs: Vec<String> = Vec::new();
        proof {
            assert(vs@.map_values(|s: String| s@) =~~= Seq::<Seq<char>>::empty());
        }
        Ok(vs)
    } else {
        let v = match decode_response_field(&fields[i], headers, body) {
            Ok(v) => v,
            Err(e) => {
                return Err(e);
            },
        };
        match init_fields_from(fields, i + 1, headers, body) {
            Ok(rest) => {
                let mut vs: Vec<String> = Vec::new();
                vs.push(v);
                let mut tail = rest;
                let ghost tail_snapshot = tail@;
                vs.append(&mut tail);
                proof {
                    assert(vs@.map_values(|s: String| s@) =~~= seq![vs@[0]@] + tail_snapshot
                        .map_values(|s: String| s@));
                }
                Ok(vs)
            },
            Err(e) => Err(e),
        }
    }
}

/// Decodes one response field from the incoming headers and body.
fn decode_response_field(
    rf: &ResponseField,
    headers: &Vec<(String, String)>,
    body: &String,
) -> (r: Result<String, RuntimeError>)
    ensures
        match r {
            Ok(v) => spec_decode_response_field(*rf, header_views(headers@), body@) == Ok::<
                Seq<char>,
                RuntimeError,
            >(v@),
            Err(e) => spec_decode_response_field(*rf, header_views(headers@), body@) == Err::<
                Seq<char>,
                RuntimeError,
            >(e),
        },
{
    match rf {
        ResponseField::Header(_, h) => {
            match lookup_header(headers, h.as_str()) {
                Some(v) => Ok(v),
                None => Err(RuntimeError::MissingHeader { header: h.clone() }),
            }
        },
        ResponseField::NewtypeBody(_) => {
            let chars = str_chars(body.as_str());
            match parse_quoted_at(&chars, 0) {
                Some(p) => {
                    proof {
                        assert(chars@.skip(0) =~= chars@);
                    }
                    let (content, j) = p;
                    if j == chars.len() {
                        proof {
                            assert(chars@.skip(j as int).len() == 0);
                        }
                        Ok(string_of_chars(&content))
                    } else {
                        proof {
                            assert(chars@.skip(j as int).len() > 0);
                        }
                        Err(RuntimeError::BodyDeserializeError)
                    }
                },
                None => {
                    proof {
                        assert(chars@.skip(0) =~= chars@);
                    }
                    Err(RuntimeError::BodyDeserializeError)
                },
            }
        },
        ResponseField::Body(f) => {
            let chars = str_chars(body.as_str());
            match parse_object_chars(&chars) {
                Some(ms) => {
                    match lookup_member(&ms, f.name.as_str()) {
                        Some(v) => Ok(string_of_chars(&v)),
                        None => Err(RuntimeError::BodyDeserializeError),
                    }
                },
                None => Err(RuntimeError::BodyDeserializeError),
            }
        },
    }
}

} // verus!
