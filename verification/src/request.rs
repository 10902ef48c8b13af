//! The request schema: classified fields and their derived queries.

use vstd::prelude::*;

use crate::errors::SchemaError;
use crate::field::{Field, Meta, RawField, RequestFieldKind};
use crate::text::str_eq;

verus! {

/// A request field resolved to the place it occupies on the wire.
#[derive(Debug)]
pub enum RequestField {
    /// Part of the aggregate body object.
    Body(Field),
    /// A header, under the given header name.
    Header(Field, String),
    /// The whole body, with no wrapping object.
    NewtypeBody(Field),
    /// A path segment bound to a placeholder of the same name.
    Path(Field),
    /// A query string parameter.
    Query(Field),
}

impl RequestField {
    /// The kind of this field.
    pub open spec fn spec_kind(&self) -> RequestFieldKind {
        match self {
            RequestField::Body(_) => RequestFieldKind::Body,
            RequestField::Header(_, _) => RequestFieldKind::Header,
            RequestField::NewtypeBody(_) => RequestFieldKind::NewtypeBody,
            RequestField::Path(_) => RequestFieldKind::Path,
            RequestField::Query(_) => RequestFieldKind::Query,
        }
    }

    /// The inner declared field.
    pub open spec fn spec_field(&self) -> Field {
        match self {
            RequestField::Body(f) => *f,
            RequestField::Header(f, _) => *f,
            RequestField::NewtypeBody(f) => *f,
            RequestField::Path(f) => *f,
            RequestField::Query(f) => *f,
        }
    }

    /// The header name, for a header field; empty otherwise.
    pub open spec fn spec_header_name(&self) -> Seq<char> {
        match self {
            RequestField::Header(_, h) => h@,
            _ => Seq::empty(),
        }
    }

    /// Creates a request field of the given kind; a header kind takes its
    /// header name from `header`.
    pub fn new(kind: RequestFieldKind, field: Field, header: Option<String>) -> (r: Self)
        requires
            kind == RequestFieldKind::Header ==> header is Some,
        ensures
            r.spec_kind() == kind,
            r.spec_field() == field,
            kind == RequestFieldKind::Header ==> r.spec_header_name() == header.unwrap()@,
    {
        match kind {
            RequestFieldKind::Body => RequestField::Body(field),
            RequestFieldKind::Header => {
                match header {
                    Some(h) => RequestField::Header(field, h),
                    None => {
                        proof {
                            assert(false);
                        }
                        RequestField::Body(field)
                    },
                }
            },
            RequestFieldKind::NewtypeBody => RequestField::NewtypeBody(field),
            RequestFieldKind::Path => RequestField::Path(field),
            RequestFieldKind::Query => RequestField::Query(field),
        }
    }

    /// The kind of this field.
    pub fn kind(&self) -> (k: RequestFieldKind)
        ensures
            k == self.spec_kind(),
    {
        match self {
            RequestField::Body(_) => RequestFieldKind::Body,
            RequestField::Header(_, _) => RequestFieldKind::Header,
            RequestField::NewtypeBody(_) => RequestFieldKind::NewtypeBody,
            RequestField::Path(_) => RequestFieldKind::Path,
            RequestField::Query(_) => RequestFieldKind::Query,
        }
    }

    /// Whether this field travels in the aggregate body.
    pub fn is_body(&self) -> (r: bool)
        ensures
            r == (self.spec_kind() == RequestFieldKind::Body),
    {
        self.kind() == RequestFieldKind::Body
    }

    /// Whether this field travels in a header.
    pub fn is_header(&self) -> (r: bool)
        ensures
            r == (self.spec_kind() == RequestFieldKind::Header),
    {
        self.kind() == RequestFieldKind::Header
    }

    /// Whether this field travels in the path.
    pub fn is_path(&self) -> (r: bool)
        ensures
            r == (self.spec_kind() == RequestFieldKind::Path),
    {
        self.kind() == RequestFieldKind::Path
    }

    /// Whether this field travels in the query string.
    pub fn is_query(&self) -> (r: bool)
        ensures
            r == (self.spec_kind() == RequestFieldKind::Query),
    {
        self.kind() == RequestFieldKind::Query
    }

    /// The inner declared field.
    pub fn field(&self) -> (r: &Field)
        ensures
            *r == self.spec_field(),
    {
        match self {
            RequestField::Body(f) => f,
            RequestField::Header(f, _) => f,
            RequestField::NewtypeBody(f) => f,
            RequestField::Path(f) => f,
            RequestField::Query(f) => f,
        }
    }

    /// The inner field when this field has the given kind.
    pub fn field_of_kind(&self, kind: RequestFieldKind) -> (r: Option<&Field>)
        ensures
            match r {
                Some(f) => self.spec_kind() == kind && *f == self.spec_field(),
                None => self.spec_kind() != kind,
            },
    {
        if self.kind() == kind {
            Some(self.field())
        } else {
            None
        }
    }

    /// The inner field when this is an aggregate body field.
    pub fn as_body_field(&self) -> (r: Option<&Field>)
        ensures
            match r {
                Some(f) => self.spec_kind() == RequestFieldKind::Body && *f == self.spec_field(),
                None => self.spec_kind() != RequestFieldKind::Body,
            },
    {
        self.field_of_kind(RequestFieldKind::Body)
    }

    /// The inner field when this is a whole-body field.
    pub fn as_newtype_body_field(&self) -> (r: Option<&Field>)
        ensures
            match r {
                Some(f) => self.spec_kind() == RequestFieldKind::NewtypeBody && *f
                    == self.spec_field(),
                None => self.spec_kind() != RequestFieldKind::NewtypeBody,
            },
    {
        self.field_of_kind(RequestFieldKind::NewtypeBody)
    }

    /// The inner field when this is a path field.
    pub fn as_path_field(&self) -> (r: Option<&Field>)
        ensures
            match r {
                Some(f) => self.spec_kind() == RequestFieldKind::Path && *f == self.spec_field(),
                None => self.spec_kind() != RequestFieldKind::Path,
            },
    {
        self.field_of_kind(RequestFieldKind::Path)
    }

    /// The inner field when this is a query field.
    pub fn as_query_field(&self) -> (r: Option<&Field>)
        ensures
            match r {
                Some(f) => self.spec_kind() == RequestFieldKind::Query && *f == self.spec_field(),
                None => self.spec_kind() != RequestFieldKind::Query,
            },
    {
        self.field_of_kind(RequestFieldKind::Query)
    }

    /// An identical copy of the field.
    pub fn duplicate(&self) -> (r: Self)
        ensures
            r == *self,
    {
        match self {
            RequestField::Body(f) => RequestField::Body(f.duplicate()),
            RequestField::Header(f, h) => RequestField::Header(f.duplicate(), h.clone()),
            RequestField::NewtypeBody(f) => RequestField::NewtypeBody(f.duplicate()),
            RequestField::Path(f) => RequestField::Path(f.duplicate()),
            RequestField::Query(f) => RequestField::Query(f.duplicate()),
        }
    }
}

/// The kind a bare-word annotation names for a request field, if any.
pub open spec fn spec_word_kind(w: Seq<char>) -> Option<RequestFieldKind> {
    if w == "body"@ {
        Some(RequestFieldKind::NewtypeBody)
    } else if w == "path"@ {
        Some(RequestFieldKind::Path)
    } else if w == "query"@ {
        Some(RequestFieldKind::Query)
    } else {
        None
    }
}

/// The classified field one annotation resolves to, if the annotation
/// names a kind at all.
pub open spec fn spec_attr_field(m: Meta, f: Field) -> Option<RequestField> {
    match m {
        Meta::Word(w) => match spec_word_kind(w@) {
            Some(RequestFieldKind::NewtypeBody) => Some(RequestField::NewtypeBody(f)),
            Some(RequestFieldKind::Path) => Some(RequestField::Path(f)),
            Some(RequestFieldKind::Query) => Some(RequestField::Query(f)),
            _ => None,
        },
        Meta::NameValue(k, v) => if k@ == "header"@ {
            Some(RequestField::Header(f, v))
        } else {
            None
        },
    }
}

/// The classification of one declared request field: no annotation means
/// the aggregate body; one annotation names the kind; an annotation with
/// an unknown key is refused, as is any second annotation.
pub open spec fn spec_classify(rf: RawField) -> Result<RequestField, SchemaError> {
    let f = Field { name: rf.name, ty: rf.ty };
    if rf.attrs@.len() == 0 {
        Ok(RequestField::Body(f))
    } else {
        match spec_attr_field(rf.attrs@[0], f) {
            None => Err(SchemaError::UnknownAttributeKey { field: rf.name }),
            Some(cf) => if rf.attrs@.len() == 1 {
                Ok(cf)
            } else {
                Err(SchemaError::DuplicateKindAttribute { field: rf.name })
            },
        }
    }
}

/// The classification errors of the fields from position `i` on, in
/// declaration order.
pub open spec fn classify_errors_from(fields: Seq<RawField>, i: int) -> Seq<SchemaError>
    decreases fields.len() - i,
{
    if i < 0 || i >= fields.len() {
        Seq::empty()
    } else {
        match spec_classify(fields[i]) {
            Ok(_) => classify_errors_from(fields, i + 1),
            Err(e) => seq![e] + classify_errors_from(fields, i + 1),
        }
    }
}

/// Classifies one declared request field.
pub fn classify_field(rf: &RawField) -> (r: Result<RequestField, SchemaError>)
    ensures
        r == spec_classify(*rf),
{
    let field = Field { name: rf.name.clone(), ty: rf.ty.clone() };
    if rf.attrs.len() == 0 {
        Ok(RequestField::Body(field))
    } else {
        let first = match &rf.attrs[0] {
            Meta::Word(w) => {
                if str_eq(w.as_str(), "body") {
                    Some(RequestField::NewtypeBody(field))
                } else if str_eq(w.as_str(), "path") {
                    Some(RequestField::Path(field))
                } else if str_eq(w.as_str(), "query") {
                    Some(RequestField::Query(field))
                } else {
                    None
                }
            },
            Meta::NameValue(k, v) => {
                if str_eq(k.as_str(), "header") {
                    Some(RequestField::Header(field, v.clone()))
                } else {
                    None
                }
            },
        };
        match first {
            None => Err(SchemaError::UnknownAttributeKey { field: rf.name.clone() }),
            Some(cf) => if rf.attrs.len() == 1 {
                Ok(cf)
            } else {
                Err(SchemaError::DuplicateKindAttribute { field: rf.name.clone() })
            },
        }
    }
}

/// The `request` section of an endpoint description, before
/// classification.
#[derive(Debug)]
pub struct RawRequest {
    pub fields: Vec<RawField>,
}

/// The validated request schema: its classified fields, in declaration
/// order.
#[derive(Debug)]
pub struct Request {
    pub fields: Vec<RequestField>,
}

/// How many fields of the given kind a field list holds.
pub open spec fn count_kind(fields: Seq<RequestField>, k: RequestFieldKind) -> int
    decreases fields.len(),
{
    if fields.len() == 0 {
        0
    } else {
        (if fields[0].spec_kind() == k {
            1int
        } else {
            0int
        }) + count_kind(fields.skip(1), k)
    }
}

/// Whether a field list holds any field of the given kind.
pub open spec fn has_kind(fields: Seq<RequestField>, k: RequestFieldKind) -> bool {
    exists|i: int| 0 <= i < fields.len() && #[trigger] fields[i].spec_kind() == k
}

/// The inner fields of the given kind, in declaration order.
pub open spec fn spec_fields_of_kind(fields: Seq<RequestField>, k: RequestFieldKind) -> Seq<Field>
    decreases fields.len(),
{
    if fields.len() == 0 {
        Seq::empty()
    } else {
        (if fields[0].spec_kind() == k {
            seq![fields[0].spec_field()]
        } else {
            Seq::empty()
        }) + spec_fields_of_kind(fields.skip(1), k)
    }
}

/// The names of the fields of the given kind, in declaration order.
pub open spec fn spec_names_of_kind(fields: Seq<RequestField>, k: RequestFieldKind) -> Seq<
    Seq<char>,
>
    decreases fields.len(),
{
    if fields.len() == 0 {
        Seq::empty()
    } else {
        (if fields[0].spec_kind() == k {
            seq![fields[0].spec_field().name@]
        } else {
            Seq::empty()
        }) + spec_names_of_kind(fields.skip(1), k)
    }
}

/// The first field of the given kind, if any.
pub open spec fn spec_first_of_kind(fields: Seq<RequestField>, k: RequestFieldKind) -> Option<
    Field,
>
    decreases fields.len(),
{
    if fields.len() == 0 {
        None
    } else if fields[0].spec_kind() == k {
        Some(fields[0].spec_field())
    } else {
        spec_first_of_kind(fields.skip(1), k)
    }
}

/// The first path-kind field with the given name, if any.
pub open spec fn spec_path_field_named(fields: Seq<RequestField>, name: Seq<char>) -> Option<Field>
    decreases fields.len(),
{
    if fields.len() == 0 {
        None
    } else if fields[0].spec_kind() == RequestFieldKind::Path && fields[0].spec_field().name@
        == name {
        Some(fields[0].spec_field())
    } else {
        spec_path_field_named(fields.skip(1), name)
    }
}

/// A field count never goes negative, and a positive count means a field
/// of the kind exists.
pub proof fn lemma_count_kind_bounds(fields: Seq<RequestField>, k: RequestFieldKind)
    ensures
        0 <= count_kind(fields, k) <= fields.len(),
        count_kind(fields, k) > 0 <==> has_kind(fields, k),
    decreases fields.len(),
{
    if fields.len() != 0 {
        lemma_count_kind_bounds(fields.skip(1), k);
        if count_kind(fields, k) > 0 {
            if fields[0].spec_kind() != k {
                let j = choose|i: int|
                    0 <= i < fields.skip(1).len() && #[trigger] fields.skip(1)[i].spec_kind() == k;
                assert(fields[j + 1].spec_kind() == k);
            }
        }
        if has_kind(fields, k) {
            let j = choose|i: int| 0 <= i < fields.len() && #[trigger] fields[i].spec_kind() == k;
            if j > 0 {
                assert(fields.skip(1)[j - 1].spec_kind() == k);
            }
        }
    }
}

impl Request {
    /// Classifies the declared fields of a `request` section. Succeeds
    /// exactly when every field classifies; otherwise the classification
    /// errors of every offending field are reported together, in
    /// declaration order.
    pub fn try_from(raw: &RawRequest) -> (r: Result<Request, Vec<SchemaError>>)
        ensures
            r is Ok <==> forall|i: int|
                0 <= i < raw.fields@.len() ==> #[trigger] spec_classify(raw.fields@[i]) is Ok,
            r matches Ok(req) ==> req.fields@.len() == raw.fields@.len() && forall|i: int|
                0 <= i < raw.fields@.len() ==> #[trigger] req.fields@[i] == spec_classify(
                    raw.fields@[i],
                ).unwrap(),
            r matches Err(es) ==> es@ == classify_errors_from(raw.fields@, 0) && es@.len() > 0,
    {
        let mut outs: Vec<RequestField> = Vec::new();
        let mut errs: Vec<SchemaError> = Vec::new();
        let n = raw.fields.len();
        let mut i: usize = 0;
        while i < n
            invariant
                n == raw.fields@.len(),
                i <= n,
                errs@.len() == 0 ==> outs@.len() == i && forall|j: int|
                    0 <= j < i ==> #[trigger] spec_classify(raw.fields@[j]) is Ok
                        && outs@[j] == spec_classify(raw.fields@[j]).unwrap(),
                classify_errors_from(raw.fields@, 0) == errs@ + classify_errors_from(
                    raw.fields@,
                    i as int,
                ),
                errs@.len() > 0 ==> exists|j: int|
                    0 <= j < i && !(#[trigger] spec_classify(raw.fields@[j]) is Ok),
            decreases n - i,
        {
            match classify_field(&raw.fields[i]) {
                Ok(cf) => {
                    if errs.len() == 0 {
                        outs.push(cf);
                    }
                },
                Err(e) => {
                    errs.push(e);
                },
            }
            i = i + 1;
        }
        proof {
            assert(classify_errors_from(raw.fields@, n as int) =~= Seq::<SchemaError>::empty());
            assert(classify_errors_from(raw.fields@, 0) =~= errs@);
        }
        if errs.len() == 0 {
            Ok(Request { fields: outs })
        } else {
            Err(errs)
        }
    }

    /// Whether any field travels in the aggregate body.
    pub fn has_body_fields(&self) -> (r: bool)
        ensures
            r == has_kind(self.fields@, RequestFieldKind::Body),
    {
        has_kind_exec(&self.fields, RequestFieldKind::Body)
    }

    /// Whether any field travels in a header.
    pub fn has_header_fields(&self) -> (r: bool)
        ensures
            r == has_kind(self.fields@, RequestFieldKind::Header),
    {
        has_kind_exec(&self.fields, RequestFieldKind::Header)
    }

    /// Whether any field travels in the path.
    pub fn has_path_fields(&self) -> (r: bool)
        ensures
            r == has_kind(self.fields@, RequestFieldKind::Path),
    {
        has_kind_exec(&self.fields, RequestFieldKind::Path)
    }

    /// Whether any field travels in the query string.
    pub fn has_query_fields(&self) -> (r: bool)
        ensures
            r == has_kind(self.fields@, RequestFieldKind::Query),
    {
        has_kind_exec(&self.fields, RequestFieldKind::Query)
    }

    /// The aggregate body fields, in declaration order.
    pub fn body_fields(&self) -> (r: Vec<Field>)
        ensures
            r@ == spec_fields_of_kind(self.fields@, RequestFieldKind::Body),
    {
        proof {
            assert(self.fields@.skip(0) =~= self.fields@);
        }
        fields_of_kind_from(&self.fields, RequestFieldKind::Body, 0)
    }

    /// The header fields, in declaration order.
    pub fn header_fields(&self) -> (r: Vec<RequestField>)
        ensures
            r@.len() == count_kind(self.fields@, RequestFieldKind::Header),
            forall|j: int|
                0 <= j < r@.len() ==> #[trigger] r@[j].spec_kind() == RequestFieldKind::Header,
    {
        proof {
            assert(self.fields@.skip(0) =~= self.fields@);
        }
        header_fields_from(&self.fields, 0)
    }

    /// How many fields travel in the path.
    pub fn path_field_count(&self) -> (r: usize)
        ensures
            r == count_kind(self.fields@, RequestFieldKind::Path),
    {
        proof {
            lemma_count_kind_bounds(self.fields@, RequestFieldKind::Path);
            assert(self.fields@.skip(0) =~= self.fields@);
        }
        count_kind_from(&self.fields, RequestFieldKind::Path, 0)
    }

    /// The path field with the given name, if any.
    pub fn path_field(&self, name: &str) -> (r: Option<&Field>)
        ensures
            match r {
                Some(f) => spec_path_field_named(self.fields@, name@) == Some(*f),
                None => spec_path_field_named(self.fields@, name@) is None,
            },
    {
        proof {
            assert(self.fields@.skip(0) =~= self.fields@);
        }
        path_field_from(&self.fields, name, 0)
    }

    /// The whole-body field, if any.
    pub fn newtype_body_field(&self) -> (r: Option<&Field>)
        ensures
            match r {
                Some(f) => spec_first_of_kind(self.fields@, RequestFieldKind::NewtypeBody) == Some(
                    *f,
                ),
                None => spec_first_of_kind(self.fields@, RequestFieldKind::NewtypeBody) is None,
            },
    {
        proof {
            assert(self.fields@.skip(0) =~= self.fields@);
        }
        first_of_kind_from(&self.fields, RequestFieldKind::NewtypeBody, 0)
    }
}

/// The values of the fields of the given kind, in declaration order.
pub open spec fn spec_values_of_kind(
    fields: Seq<RequestField>,
    values: Seq<Seq<char>>,
    k: RequestFieldKind,
) -> Seq<Seq<char>>
    decreases fields.len(),
{
    if fields.len() == 0 {
        Seq::empty()
    } else {
        (if fields[0].spec_kind() == k {
            seq![values[0]]
        } else {
            Seq::empty()
        }) + spec_values_of_kind(fields.skip(1), values.skip(1), k)
    }
}

impl Request {
    /// The values bound for one destination: of a full assignment, one
    /// value per field in declaration order, the sub-list belonging to
    /// the fields of the given kind.
    pub fn struct_init_fields(&self, kind: RequestFieldKind, values: &Vec<String>) -> (r: Vec<
        String,
    >)
        requires
            values@.len() == self.fields@.len(),
        ensures
            r@.map_values(|s: String| s@) == spec_values_of_kind(
                self.fields@,
                values@.map_values(|s: String| s@),
                kind,
            ),
    {
        proof {
            assert(self.fields@.skip(0) =~= self.fields@);
            assert(values@.map_values(|s: String| s@).skip(0) =~= values@.map_values(
                |s: String| s@,
            ));
        }
        values_of_kind_from(&self.fields, values, kind, 0)
    }

    /// The values of the aggregate body fields of a full assignment.
    pub fn request_body_init_fields(&self, values: &Vec<String>) -> (r: Vec<String>)
        requires
            values@.len() == self.fields@.len(),
        ensures
            r@.map_values(|s: String| s@) == spec_values_of_kind(
                self.fields@,
                values@.map_values(|s: String| s@),
                RequestFieldKind::Body,
            ),
    {
        self.struct_init_fields(RequestFieldKind::Body, values)
    }

    /// The values of the path fields of a full assignment.
    pub fn request_path_init_fields(&self, values: &Vec<String>) -> (r: Vec<String>)
        requires
            values@.len() == self.fields@.len(),
        ensures
            r@.map_values(|s: String| s@) == spec_values_of_kind(
                self.fields@,
                values@.map_values(|s: String| s@),
                RequestFieldKind::Path,
            ),
    {
        self.struct_init_fields(RequestFieldKind::Path, values)
    }

    /// The values of the query fields of a full assignment.
    pub fn request_query_init_fields(&self, values: &Vec<String>) -> (r: Vec<String>)
        requires
            values@.len() == self.fields@.len(),
        ensures
            r@.map_values(|s: String| s@) == spec_values_of_kind(
                self.fields@,
                values@.map_values(|s: String| s@),
                RequestFieldKind::Query,
            ),
    {
        self.struct_init_fields(RequestFieldKind::Query, values)
    }

    /// The values distributed back onto the aggregate body fields.
    pub fn request_init_body_fields(&self, values: &Vec<String>) -> (r: Vec<String>)
        requires
            values@.len() == self.fields@.len(),
        ensures
            r@.map_values(|s: String| s@) == spec_values_of_kind(
                self.fields@,
                values@.map_values(|s: String| s@),
                RequestFieldKind::Body,
            ),
    {
        self.struct_init_fields(RequestFieldKind::Body, values)
    }

    /// The values distributed back onto the query fields.
    pub fn request_init_query_fields(&self, values: &Vec<String>) -> (r: Vec<String>)
        requires
            values@.len() == self.fields@.len(),
        ensures
            r@.map_values(|s: String| s@) == spec_values_of_kind(
                self.fields@,
                values@.map_values(|s: String| s@),
                RequestFieldKind::Query,
            ),
    {
        self.struct_init_fields(RequestFieldKind::Query, values)
    }
}

/// The values of the fields of the given kind, from position `i` on.
fn values_of_kind_from(
    fields: &Vec<RequestField>,
    values: &Vec<String>,
    k: RequestFieldKind,
    i: usize,
) -> (r: Vec<String>)
    requires
        i <= fields@.len(),
        values@.len() == fields@.len(),
    ensures
        r@.map_values(|s: String| s@) == spec_values_of_kind(
            fields@.skip(i as int),
            values@.map_values(|s: String| s@).skip(i as int),
            k,
        ),
    decreases fields@.len() - i,
{
    if i == fields.len() {
        let r: Vec<String> = Vec::new();
        proof {
            assert(fields@.skip(i as int) =~= Seq::<RequestField>::empty());
            assert(r@.map_values(|s: String| s@) =~~= Seq::<Seq<char>>::empty());
        }
        r
    } else {
        let rest = values_of_kind_from(fields, values, k, i + 1);
        proof {
            assert(fields@.skip(i as int)[0] == fields@[i as int]);
            assert(fields@.skip(i as int).skip(1) =~= fields@.skip(i + 1));
            assert(values@.map_values(|s: String| s@).skip(i as int)[0] == values@[i as int]@);
            assert(values@.map_values(|s: String| s@).skip(i as int).skip(1) =~= values@.map_values(
                |s: String| s@,
            ).skip(i + 1));
        }
        if fields[i].kind() == k {
            let mut r: Vec<String> = Vec::new();
            r.push(values[i].clone());
            let mut tail = rest;
            let ghost tail_snapshot = tail@;
            r.append(&mut tail);
            proof {
                assert(r@.map_values(|s: String| s@) =~~= seq![r@[0]@] + tail_snapshot.map_values(
                    |s: String| s@,
                ));
            }
            r
        } else {
            rest
        }
    }
}

/// The names of the fields of the given kind, in declaration order.
pub fn names_of_kind(fields: &Vec<RequestField>, k: RequestFieldKind) -> (r: Vec<String>)
    ensures
        r@.map_values(|s: String| s@) == spec_names_of_kind(fields@, k),
{
    proof {
        assert(fields@.skip(0) =~= fields@);
    }
    names_of_kind_from(fields, k, 0)
}

/// The names of the fields of the given kind from position `i` on.
fn names_of_kind_from(fields: &Vec<RequestField>, k: RequestFieldKind, i: usize) -> (r: Vec<
    String,
>)
    requires
        i <= fields@.len(),
    ensures
        r@.map_values(|s: String| s@) == spec_names_of_kind(fields@.skip(i as int), k),
    decreases fields@.len() - i,
{
    if i == fields.len() {
        let r: Vec<String> = Vec::new();
        proof {
            assert(fields@.skip(i as int) =~= Seq::<RequestField>::empty());
            assert(r@.map_values(|s: String| s@) =~~= Seq::<Seq<char>>::empty());
        }
        r
    } else {
        let rest = names_of_kind_from(fields, k, i + 1);
        proof {
            assert(fields@.skip(i as int)[0] == fields@[i as int]);
            assert(fields@.skip(i as int).skip(1) =~= fields@.skip(i + 1));
        }
        if fields[i].kind() == k {
            let mut r: Vec<String> = Vec::new();
            r.push(fields[i].field().name.clone());
            let mut tail = rest;
            let ghost tail_snapshot = tail@;
            r.append(&mut tail);
            proof {
                assert(r@.map_values(|s: String| s@) =~~= seq![r@[0]@] + tail_snapshot.map_values(
                    |s: String| s@,
                ));
            }
            r
        } else {
            rest
        }
    }
}

/// How many fields have the given kind.
pub fn count_of_kind(fields: &Vec<RequestField>, k: RequestFieldKind) -> (r: usize)
    ensures
        r == count_kind(fields@, k),
{
    proof {
        lemma_count_kind_bounds(fields@, k);
        assert(fields@.skip(0) =~= fields@);
    }
    count_kind_from(fields, k, 0)
}

/// Whether any field from position `i` on has the given kind.
pub fn has_kind_exec(fields: &Vec<RequestField>, k: RequestFieldKind) -> (r: bool)
    ensures
        r == has_kind(fields@, k),
{
    let mut i: usize = 0;
    while i < fields.len()
        invariant
            i <= fields@.len(),
            forall|j: int| 0 <= j < i ==> #[trigger] fields@[j].spec_kind() != k,
        decreases fields@.len() - i,
    {
        if fields[i].kind() == k {
            return true;
        }
        i = i + 1;
    }
    false
}

/// The inner fields of the given kind from position `i` on.
fn fields_of_kind_from(fields: &Vec<RequestField>, k: RequestFieldKind, i: usize) -> (r: Vec<
    Field,
>)
    requires
        i <= fields@.len(),
    ensures
        r@ == spec_fields_of_kind(fields@.skip(i as int), k),
    decreases fields@.len() - i,
{
    if i == fields.len() {
        proof {
            assert(fields@.skip(i as int) =~= Seq::<RequestField>::empty());
        }
        Vec::new()
    } else {
        let mut rest = fields_of_kind_from(fields, k, i + 1);
        proof {
            assert(fields@.skip(i as int)[0] == fields@[i as int]);
            assert(fields@.skip(i as int).skip(1) =~= fields@.skip(i + 1));
        }
        if fields[i].kind() == k {
            let mut r: Vec<Field> = Vec::new();
            r.push(fields[i].field().duplicate());
            r.append(&mut rest);
            r
        } else {
            rest
        }
    }
}

/// The header fields from position `i` on.
fn header_fields_from(fields: &Vec<RequestField>, i: usize) -> (r: Vec<RequestField>)
    requires
        i <= fields@.len(),
    ensures
        r@.len() == count_kind(fields@.skip(i as int), RequestFieldKind::Header),
        forall|j: int|
            0 <= j < r@.len() ==> #[trigger] r@[j].spec_kind() == RequestFieldKind::Header,
    decreases fields@.len() - i,
{
    if i == fields.len() {
        proof {
            assert(fields@.skip(i as int) =~= Seq::<RequestField>::empty());
        }
        Vec::new()
    } else {
        let mut rest = header_fields_from(fields, i + 1);
        proof {
            assert(fields@.skip(i as int)[0] == fields@[i as int]);
            assert(fields@.skip(i as int).skip(1) =~= fields@.skip(i + 1));
        }
        if fields[i].kind() == RequestFieldKind::Header {
            let mut r: Vec<RequestField> = Vec::new();
            r.push(fields[i].duplicate());
            r.append(&mut rest);
            r
        } else {
            rest
        }
    }
}

/// How many fields from position `i` on have the given kind.
fn count_kind_from(fields: &Vec<RequestField>, k: RequestFieldKind, i: usize) -> (r: usize)
    requires
        i <= fields@.len(),
    ensures
        r == count_kind(fields@.skip(i as int), k),
    decreases fields@.len() - i,
{
    proof {
        lemma_count_kind_bounds(fields@.skip(i as int), k);
    }
    if i == fields.len() {
        proof {
            assert(fields@.skip(i as int) =~= Seq::<RequestField>::empty());
        }
        0
    } else {
        let rest = count_kind_from(fields, k, i + 1);
        proof {
            assert(fields@.skip(i as int)[0] == fields@[i as int]);
            assert(fields@.skip(i as int).skip(1) =~= fields@.skip(i + 1));
            lemma_count_kind_bounds(fields@.skip(i + 1), k);
        }
        if fields[i].kind() == k {
            rest + 1
        } else {
            rest
        }
    }
}

/// The first path field with the given name from position `i` on.
fn path_field_from<'a>(fields: &'a Vec<RequestField>, name: &str, i: usize) -> (r: Option<
    &'a Field,
>)
    requires
        i <= fields@.len(),
    ensures
        match r {
            Some(f) => spec_path_field_named(fields@.skip(i as int), name@) == Some(*f),
            None => spec_path_field_named(fields@.skip(i as int), name@) is None,
        },
    decreases fields@.len() - i,
{
    if i == fields.len() {
        proof {
            assert(fields@.skip(i as int) =~= Seq::<RequestField>::empty());
        }
        None
    } else {
        proof {
            assert(fields@.skip(i as int)[0] == fields@[i as int]);
            assert(fields@.skip(i as int).skip(1) =~= fields@.skip(i + 1));
        }
        let fi = &fields[i];
        if fi.kind() == RequestFieldKind::Path && str_eq(fi.field().name.as_str(), name) {
            Some(fi.field())
        } else {
            path_field_from(fields, name, i + 1)
        }
    }
}

/// The first field of the given kind from position `i` on.
fn first_of_kind_from<'a>(fields: &'a Vec<RequestField>, k: RequestFieldKind, i: usize) -> (r:
    Option<&'a Field>)
    requires
        i <= fields@.len(),
    ensures
        match r {
            Some(f) => spec_first_of_kind(fields@.skip(i as int), k) == Some(*f),
            None => spec_first_of_kind(fields@.skip(i as int), k) is None,
        },
    decreases fields@.len() - i,
{
    if i == fields.len() {
        proof {
            assert(fields@.skip(i as int) =~= Seq::<RequestField>::empty());
        }
        None
    } else {
        proof {
            assert(fields@.skip(i as int)[0] == fields@[i as int]);
            assert(fields@.skip(i as int).skip(1) =~= fields@.skip(i + 1));
        }
        if fields[i].kind() == k {
            Some(fields[i].field())
        } else {
            first_of_kind_from(fields, k, i + 1)
        }
    }
}

} // verus!
