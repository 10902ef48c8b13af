//! The laws the codecs obey: decoding inverts encoding, a combined
//! validation report names every offending field, and a non-success
//! status short-circuits response decoding.

use vstd::prelude::*;

use crate::api::{actual_pieces, api_violation_free, b2i, body_members, decode_query_pieces,
    names_eq, newtype_value, path_pieces, path_value, piece_for, query_members, query_pieces,
    req_header_pairs, resp_body_members, resp_header_pairs, resp_newtype_value, resp_wire_headers,
    slash_join, spec_body_text, spec_decode_request_field, spec_decode_request_from,
    spec_decode_response, spec_path_text, spec_query_text, spec_resp_body_text, tpl_names,
    v_count, v_get, v_req_mixed, v_req_multi, v_resp_mixed, v_resp_multi, v_root,
    violations_match, Api};
use crate::envelope::is_success_status;
use crate::errors::{RuntimeError, SchemaError};
use crate::field::RequestFieldKind;
use crate::jsonish::{lemma_parse_object_inverts, lemma_parse_quoted_inverts, lookup_pair,
    object_text, parse_quoted, quoted};
use crate::metadata::Method;
use crate::percent::{lemma_pct_encode_unreserved, lemma_pct_round_trip, pct_encode};
use crate::request::{count_kind, has_kind, lemma_count_kind_bounds, spec_names_of_kind,
    RequestField};
use crate::response::{resp_count_body, resp_count_newtype, spec_decode_response_field,
    spec_init_fields_from, ResponseField};
use crate::split::{join_with, lemma_split_first_of_concat, lemma_split_join,
    lemma_split_pieces_free, split_first, split_on};
use crate::template::{lemma_placeholder_pos, placeholder_pos, seg_matches, template_matches,
    Segment};
use crate::text::{is_name_char, is_plain_name, is_wire_reserved};

verus! {

/// A plain name holds none of the wire's separator characters.
proof fn lemma_plain_name_free(n: Seq<char>)
    requires
        is_plain_name(n),
    ensures
        forall|j: int| 0 <= j < n.len() ==> #[trigger] n[j] != '=',
        forall|j: int| 0 <= j < n.len() ==> #[trigger] n[j] != '&',
        forall|j: int| 0 <= j < n.len() ==> #[trigger] n[j] != '/',
{
    assert forall|j: int| 0 <= j < n.len() implies #[trigger] n[j] != '=' && n[j] != '&' && n[j]
        != '/' by {
        assert(is_name_char(n[j]));
    }
}

/// Joining with a leading separator each equals the root, the first
/// piece, and the ordinary join of the rest.
proof fn lemma_slash_join_shape(pieces: Seq<Seq<char>>)
    requires
        pieces.len() >= 1,
    ensures
        slash_join(pieces) == seq!['/'] + join_with(pieces, '/'),
    decreases pieces.len(),
{
    if pieces.len() == 1 {
        assert(pieces.skip(1).len() == 0);
        assert(slash_join(pieces.skip(1)) == Seq::<char>::empty());
        assert(slash_join(pieces) =~= seq!['/'] + join_with(pieces, '/'));
    } else {
        lemma_slash_join_shape(pieces.skip(1));
        assert(slash_join(pieces) =~= seq!['/'] + join_with(pieces, '/'));
    }
}

/// The value the first path field of a name holds, at the field that
/// declares it, under distinct names.
proof fn lemma_path_value_at(fields: Seq<RequestField>, values: Seq<Seq<char>>, i: int)
    requires
        values.len() == fields.len(),
        0 <= i < fields.len(),
        fields[i].spec_kind() == RequestFieldKind::Path,
        forall|a: int, b: int|
            0 <= a < b < fields.len() ==> #[trigger] fields[a].spec_field().name@ != #[trigger] fields[b].spec_field().name@,
    ensures
        path_value(fields, values, fields[i].spec_field().name@) == Some(values[i]),
    decreases i,
{
    let name = fields[i].spec_field().name@;
    if i == 0 {
        assert(path_value(fields, values, name) == Some(values[0]));
    } else {
        assert(fields[0].spec_field().name@ != name);
        assert forall|a: int, b: int|
            0 <= a < b < fields.skip(1).len() implies #[trigger] fields.skip(
            1,
        )[a].spec_field().name@ != #[trigger] fields.skip(1)[b].spec_field().name@ by {
            assert(fields.skip(1)[a] == fields[a + 1]);
            assert(fields.skip(1)[b] == fields[b + 1]);
        }
        assert(fields.skip(1)[i - 1] == fields[i]);
        assert(values.skip(1)[i - 1] == values[i]);
        lemma_path_value_at(fields.skip(1), values.skip(1), i - 1);
    }
}

/// Under distinct header names, the lookup of a header field's name in
/// the encoded pairs yields that field's value.
proof fn lemma_header_lookup_at(fields: Seq<RequestField>, values: Seq<Seq<char>>, i: int)
    requires
        values.len() == fields.len(),
        0 <= i < fields.len(),
        fields[i].spec_kind() == RequestFieldKind::Header,
        forall|a: int, b: int|
            0 <= a < b < fields.len() && fields[a].spec_kind() == RequestFieldKind::Header
                && fields[b].spec_kind() == RequestFieldKind::Header
                ==> #[trigger] fields[a].spec_header_name() != #[trigger] fields[b].spec_header_name(),
    ensures
        lookup_pair(req_header_pairs(fields, values), fields[i].spec_header_name()) == Some(
            values[i],
        ),
    decreases i,
{
    let name = fields[i].spec_header_name();
    let pairs = req_header_pairs(fields, values);
    assert forall|a: int, b: int|
        0 <= a < b < fields.skip(1).len() && fields.skip(1)[a].spec_kind()
            == RequestFieldKind::Header && fields.skip(1)[b].spec_kind()
            == RequestFieldKind::Header implies #[trigger] fields.skip(1)[a].spec_header_name()
        != #[trigger] fields.skip(1)[b].spec_header_name() by {
        assert(fields.skip(1)[a] == fields[a + 1]);
        assert(fields.skip(1)[b] == fields[b + 1]);
    }
    if fields[0].spec_kind() == RequestFieldKind::Header {
        let rest = req_header_pairs(fields.skip(1), values.skip(1));
        assert(pairs =~= seq![(fields[0].spec_header_name(), values[0])] + rest);
        assert(pairs.skip(1) =~= rest);
        if i == 0 {
            assert(pairs[0].0 == name);
        } else {
            assert(fields[0].spec_header_name() != name);
            assert(fields.skip(1)[i - 1] == fields[i]);
            assert(values.skip(1)[i - 1] == values[i]);
            lemma_header_lookup_at(fields.skip(1), values.skip(1), i - 1);
        }
    } else {
        assert(i != 0);
        assert(pairs =~= req_header_pairs(fields.skip(1), values.skip(1)));
        assert(fields.skip(1)[i - 1] == fields[i]);
        assert(values.skip(1)[i - 1] == values[i]);
        lemma_header_lookup_at(fields.skip(1), values.skip(1), i - 1);
    }
}

/// Decoding the query pieces inverts building them, under plain names.
proof fn lemma_query_decode(fields: Seq<RequestField>, values: Seq<Seq<char>>)
    requires
        values.len() == fields.len(),
        forall|a: int|
            0 <= a < fields.len() ==> is_plain_name(#[trigger] fields[a].spec_field().name@),
    ensures
        decode_query_pieces(query_pieces(fields, values)) == Some(query_members(fields, values)),
    decreases fields.len(),
{
    if fields.len() == 0 {
        assert(query_pieces(fields, values) =~= Seq::<Seq<char>>::empty());
        assert(query_members(fields, values) =~= Seq::<(Seq<char>, Seq<char>)>::empty());
    } else {
        assert forall|a: int| 0 <= a < fields.skip(1).len() implies is_plain_name(
            #[trigger] fields.skip(1)[a].spec_field().name@,
        ) by {
            assert(fields.skip(1)[a] == fields[a + 1]);
        }
        lemma_query_decode(fields.skip(1), values.skip(1));
        let pieces = query_pieces(fields, values);
        let members = query_members(fields, values);
        let rest_pieces = query_pieces(fields.skip(1), values.skip(1));
        let rest_members = query_members(fields.skip(1), values.skip(1));
        if fields[0].spec_kind() == RequestFieldKind::Query {
            let n = fields[0].spec_field().name@;
            let p = n + seq!['='] + pct_encode(values[0]);
            assert(pieces =~= seq![p] + rest_pieces);
            assert(pieces[0] == p);
            assert(pieces.skip(1) =~= rest_pieces);
            lemma_plain_name_free(n);
            lemma_split_first_of_concat(n, pct_encode(values[0]), '=');
            assert(split_first(p, '=') == Some((n, pct_encode(values[0]))));
            lemma_pct_round_trip(values[0]);
            assert(members =~= seq![(n, values[0])] + rest_members);
            assert(decode_query_pieces(pieces) == Some(seq![(n, values[0])] + rest_members));
        } else {
            assert(pieces =~= rest_pieces);
            assert(members =~= rest_members);
        }
    }
}

/// No query piece holds the piece separator.
proof fn lemma_query_pieces_amp_free(fields: Seq<RequestField>, values: Seq<Seq<char>>)
    requires
        values.len() == fields.len(),
        forall|a: int|
            0 <= a < fields.len() ==> is_plain_name(#[trigger] fields[a].spec_field().name@),
    ensures
        forall|k: int, j: int|
            0 <= k < query_pieces(fields, values).len() && 0 <= j < query_pieces(
                fields,
                values,
            )[k].len() ==> #[trigger] query_pieces(fields, values)[k][j] != '&',
    decreases fields.len(),
{
    if fields.len() != 0 {
        assert forall|a: int| 0 <= a < fields.skip(1).len() implies is_plain_name(
            #[trigger] fields.skip(1)[a].spec_field().name@,
        ) by {
            assert(fields.skip(1)[a] == fields[a + 1]);
        }
        lemma_query_pieces_amp_free(fields.skip(1), values.skip(1));
        let pieces = query_pieces(fields, values);
        let rest = query_pieces(fields.skip(1), values.skip(1));
        if fields[0].spec_kind() == RequestFieldKind::Query {
            let n = fields[0].spec_field().name@;
            let enc = pct_encode(values[0]);
            let p = n + seq!['='] + enc;
            assert(pieces =~= seq![p] + rest);
            lemma_plain_name_free(n);
            lemma_pct_encode_unreserved(values[0]);
            assert forall|j: int| 0 <= j < p.len() implies #[trigger] p[j] != '&' by {
                if j < n.len() {
                    assert(p[j] == n[j]);
                } else if j == n.len() {
                    assert(p[j] == '=');
                } else {
                    assert(p[j] == enc[j - n.len() - 1]);
                    assert(enc[j - n.len() - 1] == '%' || !is_wire_reserved(enc[j - n.len() - 1]));
                }
            }
            assert forall|k: int, j: int|
                0 <= k < pieces.len() && 0 <= j < pieces[k].len() implies #[trigger] pieces[k][j]
                != '&' by {
                if k >= 1 {
                    assert(pieces[k] == rest[k - 1]);
                }
            }
        } else {
            assert(pieces =~= rest);
        }
    }
}

/// There are as many query pieces as query fields.
proof fn lemma_query_pieces_len(fields: Seq<RequestField>, values: Seq<Seq<char>>)
    ensures
        query_pieces(fields, values).len() == count_kind(fields, RequestFieldKind::Query),
    decreases fields.len(),
{
    if fields.len() != 0 {
        lemma_query_pieces_len(fields.skip(1), values.skip(1));
    }
}

/// Under distinct names, the lookup of a query field's name in the
/// decoded members yields that field's value.
proof fn lemma_query_lookup_at(fields: Seq<RequestField>, values: Seq<Seq<char>>, i: int)
    requires
        values.len() == fields.len(),
        0 <= i < fields.len(),
        fields[i].spec_kind() == RequestFieldKind::Query,
        forall|a: int, b: int|
            0 <= a < b < fields.len() ==> #[trigger] fields[a].spec_field().name@ != #[trigger] fields[b].spec_field().name@,
    ensures
        lookup_pair(query_members(fields, values), fields[i].spec_field().name@) == Some(
            values[i],
        ),
    decreases i,
{
    let name = fields[i].spec_field().name@;
    let members = query_members(fields, values);
    assert forall|a: int, b: int|
        0 <= a < b < fields.skip(1).len() implies #[trigger] fields.skip(1)[a].spec_field().name@
        != #[trigger] fields.skip(1)[b].spec_field().name@ by {
        assert(fields.skip(1)[a] == fields[a + 1]);
        assert(fields.skip(1)[b] == fields[b + 1]);
    }
    if fields[0].spec_kind() == RequestFieldKind::Query {
        let rest = query_members(fields.skip(1), values.skip(1));
        assert(members =~= seq![(fields[0].spec_field().name@, values[0])] + rest);
        assert(members.skip(1) =~= rest);
        if i == 0 {
            assert(members[0].0 == name);
        } else {
            assert(fields[0].spec_field().name@ != name);
            assert(fields.skip(1)[i - 1] == fields[i]);
            assert(values.skip(1)[i - 1] == values[i]);
            lemma_query_lookup_at(fields.skip(1), values.skip(1), i - 1);
        }
    } else {
        assert(i != 0);
        assert(members =~= query_members(fields.skip(1), values.skip(1)));
        assert(fields.skip(1)[i - 1] == fields[i]);
        assert(values.skip(1)[i - 1] == values[i]);
        lemma_query_lookup_at(fields.skip(1), values.skip(1), i - 1);
    }
}

/// Under distinct names, the lookup of a body field's name in the body
/// members yields that field's value.
proof fn lemma_body_lookup_at(fields: Seq<RequestField>, values: Seq<Seq<char>>, i: int)
    requires
        values.len() == fields.len(),
        0 <= i < fields.len(),
        fields[i].spec_kind() == RequestFieldKind::Body,
        forall|a: int, b: int|
            0 <= a < b < fields.len() ==> #[trigger] fields[a].spec_field().name@ != #[trigger] fields[b].spec_field().name@,
    ensures
        lookup_pair(body_members(fields, values), fields[i].spec_field().name@) == Some(
            values[i],
        ),
    decreases i,
{
    let name = fields[i].spec_field().name@;
    let members = body_members(fields, values);
    assert forall|a: int, b: int|
        0 <= a < b < fields.skip(1).len() implies #[trigger] fields.skip(1)[a].spec_field().name@
        != #[trigger] fields.skip(1)[b].spec_field().name@ by {
        assert(fields.skip(1)[a] == fields[a + 1]);
        assert(fields.skip(1)[b] == fields[b + 1]);
    }
    if fields[0].spec_kind() == RequestFieldKind::Body {
        let rest = body_members(fields.skip(1), values.skip(1));
        assert(members =~= seq![(fields[0].spec_field().name@, values[0])] + rest);
        assert(members.skip(1) =~= rest);
        if i == 0 {
            assert(members[0].0 == name);
        } else {
            assert(fields[0].spec_field().name@ != name);
            assert(fields.skip(1)[i - 1] == fields[i]);
            assert(values.skip(1)[i - 1] == values[i]);
            lemma_body_lookup_at(fields.skip(1), values.skip(1), i - 1);
        }
    } else {
        assert(i != 0);
        assert(members =~= body_members(fields.skip(1), values.skip(1)));
        assert(fields.skip(1)[i - 1] == fields[i]);
        assert(values.skip(1)[i - 1] == values[i]);
        lemma_body_lookup_at(fields.skip(1), values.skip(1), i - 1);
    }
}

/// There are as many body members as aggregate body fields.
proof fn lemma_body_members_len(fields: Seq<RequestField>, values: Seq<Seq<char>>)
    ensures
        body_members(fields, values).len() == count_kind(fields, RequestFieldKind::Body),
    decreases fields.len(),
{
    if fields.len() != 0 {
        lemma_body_members_len(fields.skip(1), values.skip(1));
    }
}

/// With no whole-body field there is no whole-body value.
proof fn lemma_newtype_none(fields: Seq<RequestField>, values: Seq<Seq<char>>)
    requires
        count_kind(fields, RequestFieldKind::NewtypeBody) == 0,
    ensures
        newtype_value(fields, values) is None,
    decreases fields.len(),
{
    if fields.len() != 0 {
        lemma_count_kind_bounds(fields.skip(1), RequestFieldKind::NewtypeBody);
        lemma_newtype_none(fields.skip(1), values.skip(1));
    }
}

/// With at most one whole-body field, the whole-body value is the value
/// of the field that claims it.
proof fn lemma_newtype_at(fields: Seq<RequestField>, values: Seq<Seq<char>>, i: int)
    requires
        values.len() == fields.len(),
        0 <= i < fields.len(),
        fields[i].spec_kind() == RequestFieldKind::NewtypeBody,
        count_kind(fields, RequestFieldKind::NewtypeBody) <= 1,
    ensures
        newtype_value(fields, values) == Some(values[i]),
    decreases i,
{
    if fields[0].spec_kind() == RequestFieldKind::NewtypeBody {
        if i != 0 {
            assert(fields.skip(1)[i - 1] == fields[i]);
            lemma_count_kind_bounds(fields.skip(1), RequestFieldKind::NewtypeBody);
            assert(crate::request::has_kind(fields.skip(1), RequestFieldKind::NewtypeBody));
            assert(false);
        }
    } else {
        assert(i != 0);
        assert(fields.skip(1)[i - 1] == fields[i]);
        assert(values.skip(1)[i - 1] == values[i]);
        lemma_newtype_at(fields.skip(1), values.skip(1), i - 1);
    }
}

/// The segments an encoded path splits back into are the encoded pieces.
proof fn lemma_actual_pieces_of_encoded(
    segs: Seq<Segment>,
    tpl: Seq<char>,
    fields: Seq<RequestField>,
    values: Seq<Seq<char>>,
)
    requires
        segs.len() >= 1,
        template_matches(segs, tpl),
    ensures
        actual_pieces(spec_path_text(segs, fields, values)) == path_pieces(segs, fields, values),
{
    let pieces = path_pieces(segs, fields, values);
    assert(pieces.len() == segs.len());
    lemma_slash_join_shape(pieces);
    let path = spec_path_text(segs, fields, values);
    assert(path == seq!['/'] + join_with(pieces, '/'));
    assert(path[0] == '/');
    assert(path.skip(1) =~= join_with(pieces, '/'));
    lemma_split_pieces_free(tpl.skip(1), '/');
    assert forall|k: int, j: int|
        0 <= k < pieces.len() && 0 <= j < pieces[k].len() implies #[trigger] pieces[k][j]
        != '/' by {
        assert(pieces[k] == piece_for(segs[k], fields, values));
        let tp = split_on(tpl.skip(1), '/')[k];
        assert(seg_matches(segs[k], tp));
        match segs[k] {
            Segment::Literal(l) => {
                assert(l@ == tp);
            },
            Segment::Placeholder(n) => {
                match path_value(fields, values, n@) {
                    Some(v) => {
                        lemma_pct_encode_unreserved(v);
                        assert(pieces[k][j] == '%' || !is_wire_reserved(pieces[k][j]));
                    },
                    None => {},
                }
            },
        }
    }
    lemma_split_join(pieces, '/');
}

/// One encoded field decodes back to its value.
proof fn lemma_field_round_trip(api: &Api, values: Seq<Seq<char>>, i: int)
    requires
        api.valid(),
        values.len() == api.request.fields@.len(),
        0 <= i < api.request.fields@.len(),
        forall|a: int, b: int|
            0 <= a < b < api.request.fields@.len() && api.request.fields@[a].spec_kind()
                == RequestFieldKind::Header && api.request.fields@[b].spec_kind()
                == RequestFieldKind::Header ==> #[trigger] api.request.fields@[a].spec_header_name()
                != #[trigger] api.request.fields@[b].spec_header_name(),
        forall|a: int|
            0 <= a < api.request.fields@.len() && #[trigger] api.request.fields@[a].spec_kind()
                == RequestFieldKind::Path ==> placeholder_pos(
                api.metadata.template.segments@,
                api.request.fields@[a].spec_field().name@,
            ) >= 0,
    ensures
        spec_decode_request_field(
            api.request.fields@[i],
            api.metadata.template.segments@,
            spec_path_text(api.metadata.template.segments@, api.request.fields@, values),
            if has_kind(api.request.fields@, RequestFieldKind::Query) {
                Some(spec_query_text(api.request.fields@, values))
            } else {
                None
            },
            req_header_pairs(api.request.fields@, values),
            spec_body_text(api.request.fields@, values),
        ) == Ok::<Seq<char>, RuntimeError>(values[i]),
{
    let fields = api.request.fields@;
    let segs = api.metadata.template.segments@;
    let path = spec_path_text(segs, fields, values);
    let body = spec_body_text(fields, values);
    match fields[i] {
        RequestField::Path(f) => {
            assert(fields[i].spec_kind() == RequestFieldKind::Path);
            let name = f.name@;
            assert(name == fields[i].spec_field().name@);
            let j = placeholder_pos(segs, name);
            assert(j >= 0);
            lemma_placeholder_pos(segs, name);
            assert(segs.len() >= 1);
            lemma_actual_pieces_of_encoded(segs, api.metadata.path@, fields, values);
            let pieces = path_pieces(segs, fields, values);
            assert(actual_pieces(path) == pieces);
            assert(pieces[j] == piece_for(segs[j], fields, values));
            assert(seg_matches(segs[j], split_on(api.metadata.path@.skip(1), '/')[j]));
            match segs[j] {
                Segment::Placeholder(n) => {
                    assert(n@ == name);
                    lemma_path_value_at(fields, values, i);
                    assert(path_value(fields, values, name) == Some(values[i]));
                    assert(pieces[j] == pct_encode(values[i]));
                    lemma_pct_round_trip(values[i]);
                },
                Segment::Literal(_) => {
                    assert(false);
                },
            }
        },
        RequestField::Query(f) => {
            assert(fields[i].spec_kind() == RequestFieldKind::Query);
            assert(has_kind(fields, RequestFieldKind::Query));
            let qt = spec_query_text(fields, values);
            let pieces = query_pieces(fields, values);
            lemma_query_pieces_len(fields, values);
            lemma_count_kind_bounds(fields, RequestFieldKind::Query);
            assert(pieces.len() >= 1);
            lemma_query_pieces_amp_free(fields, values);
            lemma_split_join(pieces, '&');
            assert(split_on(qt, '&') == pieces);
            lemma_query_decode(fields, values);
            lemma_query_lookup_at(fields, values, i);
        },
        RequestField::Header(_, h) => {
            assert(fields[i].spec_kind() == RequestFieldKind::Header);
            assert(h@ == fields[i].spec_header_name());
            lemma_header_lookup_at(fields, values, i);
        },
        RequestField::NewtypeBody(_) => {
            assert(fields[i].spec_kind() == RequestFieldKind::NewtypeBody);
            lemma_count_kind_bounds(fields, RequestFieldKind::NewtypeBody);
            lemma_newtype_at(fields, values, i);
            assert(body == quoted(values[i]));
            lemma_parse_quoted_inverts(values[i], Seq::empty());
            assert(quoted(values[i]) + Seq::<char>::empty() =~= quoted(values[i]));
            assert(parse_quoted(body) == Some((values[i], Seq::<char>::empty())));
        },
        RequestField::Body(f) => {
            assert(fields[i].spec_kind() == RequestFieldKind::Body);
            lemma_count_kind_bounds(fields, RequestFieldKind::Body);
            assert(count_kind(fields, RequestFieldKind::Body) >= 1);
            assert(count_kind(fields, RequestFieldKind::NewtypeBody) == 0) by {
                lemma_count_kind_bounds(fields, RequestFieldKind::NewtypeBody);
            }
            lemma_newtype_none(fields, values);
            let members = body_members(fields, values);
            lemma_body_members_len(fields, values);
            assert(members.len() >= 1);
            assert(body == object_text(members));
            lemma_parse_object_inverts(members);
            lemma_body_lookup_at(fields, values, i);
        },
    }
}

/// All fields decoding pointwise assemble into the whole value list.
proof fn lemma_decode_request_assemble(
    fields: Seq<RequestField>,
    i: int,
    segs: Seq<Segment>,
    path: Seq<char>,
    q: Option<Seq<char>>,
    headers: Seq<(Seq<char>, Seq<char>)>,
    body: Seq<char>,
    values: Seq<Seq<char>>,
)
    requires
        values.len() == fields.len(),
        0 <= i <= fields.len(),
        forall|j: int|
            i <= j < fields.len() ==> #[trigger] spec_decode_request_field(
                fields[j],
                segs,
                path,
                q,
                headers,
                body,
            ) == Ok::<Seq<char>, RuntimeError>(values[j]),
    ensures
        spec_decode_request_from(fields, i, segs, path, q, headers, body) == Ok::<
            Seq<Seq<char>>,
            RuntimeError,
        >(values.skip(i)),
    decreases fields.len() - i,
{
    if i == fields.len() {
        assert(values.skip(i) =~= Seq::<Seq<char>>::empty());
    } else {
        lemma_decode_request_assemble(fields, i + 1, segs, path, q, headers, body, values);
        assert(seq![values[i]] + values.skip(i + 1) =~= values.skip(i));
    }
}

/// Decoding inverts encoding for requests: for any validated endpoint
/// whose header fields use pairwise distinct header names and whose path
/// fields each have a placeholder, the raw request an assignment encodes
/// to decodes back to the same assignment, across all four destinations
/// at once.
pub proof fn lemma_request_round_trip(api: &Api, values: Seq<Seq<char>>)
    requires
        api.valid(),
        values.len() == api.request.fields@.len(),
        forall|a: int, b: int|
            0 <= a < b < api.request.fields@.len() && api.request.fields@[a].spec_kind()
                == RequestFieldKind::Header && api.request.fields@[b].spec_kind()
                == RequestFieldKind::Header ==> #[trigger] api.request.fields@[a].spec_header_name()
                != #[trigger] api.request.fields@[b].spec_header_name(),
        forall|a: int|
            0 <= a < api.request.fields@.len() && #[trigger] api.request.fields@[a].spec_kind()
                == RequestFieldKind::Path ==> placeholder_pos(
                api.metadata.template.segments@,
                api.request.fields@[a].spec_field().name@,
            ) >= 0,
    ensures
        spec_decode_request_from(
            api.request.fields@,
            0,
            api.metadata.template.segments@,
            spec_path_text(api.metadata.template.segments@, api.request.fields@, values),
            if has_kind(api.request.fields@, RequestFieldKind::Query) {
                Some(spec_query_text(api.request.fields@, values))
            } else {
                None
            },
            req_header_pairs(api.request.fields@, values),
            spec_body_text(api.request.fields@, values),
        ) == Ok::<Seq<Seq<char>>, RuntimeError>(values),
{
    let fields = api.request.fields@;
    let segs = api.metadata.template.segments@;
    let path = spec_path_text(segs, fields, values);
    let q = if has_kind(fields, RequestFieldKind::Query) {
        Some(spec_query_text(fields, values))
    } else {
        None
    };
    let headers = req_header_pairs(fields, values);
    let body = spec_body_text(fields, values);
    assert forall|j: int| 0 <= j < fields.len() implies #[trigger] spec_decode_request_field(
        fields[j],
        segs,
        path,
        q,
        headers,
        body,
    ) == Ok::<Seq<char>, RuntimeError>(values[j]) by {
        lemma_field_round_trip(api, values, j);
    }
    lemma_decode_request_assemble(fields, 0, segs, path, q, headers, body, values);
    assert(values.skip(0) =~= values);
}

/// A name found in a prefix is found in the whole.
proof fn lemma_lookup_prefix(
    a: Seq<(Seq<char>, Seq<char>)>,
    b: Seq<(Seq<char>, Seq<char>)>,
    name: Seq<char>,
    v: Seq<char>,
)
    requires
        lookup_pair(a, name) == Some(v),
    ensures
        lookup_pair(a + b, name) == Some(v),
    decreases a.len(),
{
    if a.len() != 0 {
        assert((a + b)[0] == a[0]);
        if a[0].0 == name {
        } else {
            lemma_lookup_prefix(a.skip(1), b, name, v);
            assert((a + b).skip(1) =~= a.skip(1) + b);
        }
    }
}

/// Under distinct header names, the lookup of a response header field's
/// name in the encoded pairs yields that field's value.
proof fn lemma_resp_header_lookup_at(fields: Seq<ResponseField>, values: Seq<Seq<char>>, i: int)
    requires
        values.len() == fields.len(),
        0 <= i < fields.len(),
        fields[i] is Header,
        forall|a: int, b: int|
            0 <= a < b < fields.len() && fields[a] is Header && fields[b] is Header
                ==> #[trigger] fields[a]->Header_1@ != #[trigger] fields[b]->Header_1@,
    ensures
        lookup_pair(resp_header_pairs(fields, values), fields[i]->Header_1@) == Some(values[i]),
    decreases i,
{
    let name = fields[i]->Header_1@;
    let pairs = resp_header_pairs(fields, values);
    assert forall|a: int, b: int|
        0 <= a < b < fields.skip(1).len() && fields.skip(1)[a] is Header && fields.skip(
            1,
        )[b] is Header implies #[trigger] fields.skip(1)[a]->Header_1@ != #[trigger] fields.skip(
        1,
    )[b]->Header_1@ by {
        assert(fields.skip(1)[a] == fields[a + 1]);
        assert(fields.skip(1)[b] == fields[b + 1]);
    }
    if fields[0] is Header {
        let rest = resp_header_pairs(fields.skip(1), values.skip(1));
        assert(pairs =~= seq![(fields[0]->Header_1@, values[0])] + rest);
        assert(pairs.skip(1) =~= rest);
        if i == 0 {
            assert(pairs[0].0 == name);
        } else {
            assert(fields[0]->Header_1@ != name);
            assert(fields.skip(1)[i - 1] == fields[i]);
            assert(values.skip(1)[i - 1] == values[i]);
            lemma_resp_header_lookup_at(fields.skip(1), values.skip(1), i - 1);
        }
    } else {
        assert(i != 0);
        assert(pairs =~= resp_header_pairs(fields.skip(1), values.skip(1)));
        assert(fields.skip(1)[i - 1] == fields[i]);
        assert(values.skip(1)[i - 1] == values[i]);
        lemma_resp_header_lookup_at(fields.skip(1), values.skip(1), i - 1);
    }
}

/// Under distinct names, the lookup of a response body field's name in
/// the body members yields that field's value.
proof fn lemma_resp_body_lookup_at(fields: Seq<ResponseField>, values: Seq<Seq<char>>, i: int)
    requires
        values.len() == fields.len(),
        0 <= i < fields.len(),
        fields[i] is Body,
        forall|a: int, b: int|
            0 <= a < b < fields.len() ==> #[trigger] fields[a].spec_field().name@ != #[trigger] fields[b].spec_field().name@,
    ensures
        lookup_pair(resp_body_members(fields, values), fields[i].spec_field().name@) == Some(
            values[i],
        ),
    decreases i,
{
    let name = fields[i].spec_field().name@;
    let members = resp_body_members(fields, values);
    assert forall|a: int, b: int|
        0 <= a < b < fields.skip(1).len() implies #[trigger] fields.skip(1)[a].spec_field().name@
        != #[trigger] fields.skip(1)[b].spec_field().name@ by {
        assert(fields.skip(1)[a] == fields[a + 1]);
        assert(fields.skip(1)[b] == fields[b + 1]);
    }
    if fields[0] is Body {
        let rest = resp_body_members(fields.skip(1), values.skip(1));
        assert(members =~= seq![(fields[0].spec_field().name@, values[0])] + rest);
        assert(members.skip(1) =~= rest);
        if i == 0 {
            assert(members[0].0 == name);
        } else {
            assert(fields[0].spec_field().name@ != name);
            assert(fields.skip(1)[i - 1] == fields[i]);
            assert(values.skip(1)[i - 1] == values[i]);
            lemma_resp_body_lookup_at(fields.skip(1), values.skip(1), i - 1);
        }
    } else {
        assert(i != 0);
        assert(members =~= resp_body_members(fields.skip(1), values.skip(1)));
        assert(fields.skip(1)[i - 1] == fields[i]);
        assert(values.skip(1)[i - 1] == values[i]);
        lemma_resp_body_lookup_at(fields.skip(1), values.skip(1), i - 1);
    }
}

/// There are as many response body members as aggregate body fields.
proof fn lemma_resp_members_len(fields: Seq<ResponseField>, values: Seq<Seq<char>>)
    ensures
        resp_body_members(fields, values).len() == resp_count_body(fields),
    decreases fields.len(),
{
    if fields.len() != 0 {
        lemma_resp_members_len(fields.skip(1), values.skip(1));
    }
}

/// With no whole-body response field there is no whole-body value.
proof fn lemma_resp_newtype_none(fields: Seq<ResponseField>, values: Seq<Seq<char>>)
    requires
        resp_count_newtype(fields) == 0,
    ensures
        resp_newtype_value(fields, values) is None,
    decreases fields.len(),
{
    if fields.len() != 0 {
        crate::response::lemma_resp_count_bounds(fields.skip(1));
        lemma_resp_newtype_none(fields.skip(1), values.skip(1));
    }
}

/// With at most one whole-body response field, the whole-body value is
/// the value of the field that claims it.
proof fn lemma_resp_newtype_at(fields: Seq<ResponseField>, values: Seq<Seq<char>>, i: int)
    requires
        values.len() == fields.len(),
        0 <= i < fields.len(),
        fields[i] is NewtypeBody,
        resp_count_newtype(fields) <= 1,
    ensures
        resp_newtype_value(fields, values) == Some(values[i]),
    decreases i,
{
    if fields[0] is NewtypeBody {
        if i != 0 {
            assert(fields.skip(1)[i - 1] == fields[i]);
            lemma_resp_newtype_count_pos(fields.skip(1), i - 1);
            assert(false);
        }
    } else {
        assert(i != 0);
        assert(fields.skip(1)[i - 1] == fields[i]);
        assert(values.skip(1)[i - 1] == values[i]);
        lemma_resp_newtype_at(fields.skip(1), values.skip(1), i - 1);
    }
}

/// A whole-body field somewhere makes the count positive.
proof fn lemma_resp_newtype_count_pos(fields: Seq<ResponseField>, i: int)
    requires
        0 <= i < fields.len(),
        fields[i] is NewtypeBody,
    ensures
        resp_count_newtype(fields) >= 1,
    decreases i,
{
    crate::response::lemma_resp_count_bounds(fields.skip(1));
    if !(fields[0] is NewtypeBody) {
        assert(i != 0);
        assert(fields.skip(1)[i - 1] == fields[i]);
        lemma_resp_newtype_count_pos(fields.skip(1), i - 1);
    }
}

/// One encoded response field decodes back to its value.
proof fn lemma_resp_field_round_trip(api: &Api, values: Seq<Seq<char>>, i: int)
    requires
        api.valid(),
        values.len() == api.response.fields@.len(),
        0 <= i < api.response.fields@.len(),
        forall|a: int, b: int|
            0 <= a < b < api.response.fields@.len() && api.response.fields@[a] is Header
                && api.response.fields@[b] is Header ==> #[trigger] api.response.fields@[
                a
            ]->Header_1@ != #[trigger] api.response.fields@[b]->Header_1@,
    ensures
        spec_decode_response_field(
            api.response.fields@[i],
            resp_wire_headers(api.response.fields@, values),
            spec_resp_body_text(api.response.fields@, values),
        ) == Ok::<Seq<char>, RuntimeError>(values[i]),
{
    let fields = api.response.fields@;
    let body = spec_resp_body_text(fields, values);
    let headers = resp_wire_headers(fields, values);
    match fields[i] {
        ResponseField::Header(_, h) => {
            lemma_resp_header_lookup_at(fields, values, i);
            lemma_lookup_prefix(
                resp_header_pairs(fields, values),
                seq![("Content-Type"@, "application/json"@)],
                h@,
                values[i],
            );
        },
        ResponseField::NewtypeBody(_) => {
            lemma_resp_newtype_count_pos(fields, i);
            lemma_resp_newtype_at(fields, values, i);
            assert(body == quoted(values[i]));
            lemma_parse_quoted_inverts(values[i], Seq::empty());
            assert(quoted(values[i]) + Seq::<char>::empty() =~= quoted(values[i]));
            assert(parse_quoted(body) == Some((values[i], Seq::<char>::empty())));
        },
        ResponseField::Body(_) => {
            lemma_resp_members_len(fields, values);
            crate::response::lemma_resp_count_bounds(fields);
            assert(resp_count_body(fields) >= 1) by {
                lemma_resp_body_count_pos(fields, i);
            }
            assert(resp_count_newtype(fields) == 0);
            lemma_resp_newtype_none(fields, values);
            let members = resp_body_members(fields, values);
            assert(members.len() >= 1);
            assert(body == object_text(members));
            lemma_parse_object_inverts(members);
            lemma_resp_body_lookup_at(fields, values, i);
        },
    }
}

/// An aggregate body field somewhere makes the count positive.
proof fn lemma_resp_body_count_pos(fields: Seq<ResponseField>, i: int)
    requires
        0 <= i < fields.len(),
        fields[i] is Body,
    ensures
        resp_count_body(fields) >= 1,
    decreases i,
{
    crate::response::lemma_resp_count_bounds(fields.skip(1));
    if !(fields[0] is Body) {
        assert(i != 0);
        assert(fields.skip(1)[i - 1] == fields[i]);
        lemma_resp_body_count_pos(fields.skip(1), i - 1);
    }
}

/// All response fields decoding pointwise assemble into the whole list.
proof fn lemma_decode_response_assemble(
    fields: Seq<ResponseField>,
    i: int,
    headers: Seq<(Seq<char>, Seq<char>)>,
    body: Seq<char>,
    values: Seq<Seq<char>>,
)
    requires
        values.len() == fields.len(),
        0 <= i <= fields.len(),
        forall|j: int|
            i <= j < fields.len() ==> #[trigger] spec_decode_response_field(
                fields[j],
                headers,
                body,
            ) == Ok::<Seq<char>, RuntimeError>(values[j]),
    ensures
        spec_init_fields_from(fields, i, headers, body) == Ok::<Seq<Seq<char>>, RuntimeError>(
            values.skip(i),
        ),
    decreases fields.len() - i,
{
    if i == fields.len() {
        assert(values.skip(i) =~= Seq::<Seq<char>>::empty());
    } else {
        lemma_decode_response_assemble(fields, i + 1, headers, body, values);
        assert(seq![values[i]] + values.skip(i + 1) =~= values.skip(i));
    }
}

/// Decoding inverts encoding for responses: for any validated endpoint
/// whose response header fields use pairwise distinct header names, the
/// raw response an assignment encodes to — success status, field headers
/// before the fixed content type, and the body in its mode — decodes
/// back to the same assignment.
pub proof fn lemma_response_round_trip(api: &Api, values: Seq<Seq<char>>)
    requires
        api.valid(),
        values.len() == api.response.fields@.len(),
        forall|a: int, b: int|
            0 <= a < b < api.response.fields@.len() && api.response.fields@[a] is Header
                && api.response.fields@[b] is Header ==> #[trigger] api.response.fields@[
                a
            ]->Header_1@ != #[trigger] api.response.fields@[b]->Header_1@,
    ensures
        spec_decode_response(
            api.response.fields@,
            200,
            resp_wire_headers(api.response.fields@, values),
            spec_resp_body_text(api.response.fields@, values),
        ) == Ok::<Seq<Seq<char>>, RuntimeError>(values),
{
    let fields = api.response.fields@;
    let headers = resp_wire_headers(fields, values);
    let body = spec_resp_body_text(fields, values);
    assert forall|j: int| 0 <= j < fields.len() implies #[trigger] spec_decode_response_field(
        fields[j],
        headers,
        body,
    ) == Ok::<Seq<char>, RuntimeError>(values[j]) by {
        lemma_resp_field_round_trip(api, values, j);
    }
    lemma_decode_response_assemble(fields, 0, headers, body, values);
    assert(values.skip(0) =~= values);
}

/// A non-success status decodes to its status error alone, whatever the
/// headers and whatever the body holds: the body is never read, so even
/// one that is invalid under the structured format raises no
/// deserialization error.
pub proof fn lemma_status_short_circuit(
    fields: Seq<ResponseField>,
    status: u16,
    headers: Seq<(Seq<char>, Seq<char>)>,
    body: Seq<char>,
)
    requires
        !is_success_status(status),
    ensures
        spec_decode_response(fields, status, headers, body) == Err::<
            Seq<Seq<char>>,
            RuntimeError,
        >(RuntimeError::HttpStatusError { status }),
{
}

/// A GET endpoint with body-bound request fields is refused, and its
/// combined report holds one error naming every such field: the
/// aggregate body fields first, then the whole-body field.
pub proof fn lemma_get_body_combined(
    method: Method,
    path: Seq<char>,
    reqf: Seq<RequestField>,
    respf: Seq<crate::response::ResponseField>,
    es: Seq<SchemaError>,
)
    requires
        violations_match(method, path, reqf, respf, es),
        v_get(method, reqf),
    ensures
        !api_violation_free(method, path, reqf, respf),
        exists|idx: int|
            0 <= idx < es.len() && (#[trigger] es[idx]
                matches SchemaError::BodyFieldsOnGetMethod { fields } && names_eq(
                fields@,
                spec_names_of_kind(reqf, RequestFieldKind::Body) + spec_names_of_kind(
                    reqf,
                    RequestFieldKind::NewtypeBody,
                ),
            )),
{
    let idx = b2i(v_req_multi(reqf)) + b2i(v_req_mixed(reqf)) + b2i(v_resp_multi(respf)) + b2i(
        v_resp_mixed(respf),
    );
    assert(0 <= idx < es.len() && (es[idx] matches SchemaError::BodyFieldsOnGetMethod { fields }
        && names_eq(
        fields@,
        spec_names_of_kind(reqf, RequestFieldKind::Body) + spec_names_of_kind(
            reqf,
            RequestFieldKind::NewtypeBody,
        ),
    )));
}

/// A schema with more than one whole-body request field is refused, and
/// its combined report holds one error naming every such field.
pub proof fn lemma_multi_newtype_combined(
    method: Method,
    path: Seq<char>,
    reqf: Seq<RequestField>,
    respf: Seq<crate::response::ResponseField>,
    es: Seq<SchemaError>,
)
    requires
        violations_match(method, path, reqf, respf, es),
        v_req_multi(reqf),
    ensures
        !api_violation_free(method, path, reqf, respf),
        exists|idx: int|
            0 <= idx < es.len() && (#[trigger] es[idx]
                matches SchemaError::MultipleNewtypeBodyFields { fields } && names_eq(
                fields@,
                spec_names_of_kind(reqf, RequestFieldKind::NewtypeBody),
            )),
{
    assert(0 <= 0 < es.len() && (es[0] matches SchemaError::MultipleNewtypeBodyFields { fields }
        && names_eq(fields@, spec_names_of_kind(reqf, RequestFieldKind::NewtypeBody))));
}

/// A template whose placeholder count differs from the path field count
/// is refused, whichever count is larger, and the combined report holds
/// the mismatch with both counts.
pub proof fn lemma_count_mismatch_combined(
    method: Method,
    path: Seq<char>,
    reqf: Seq<RequestField>,
    respf: Seq<crate::response::ResponseField>,
    es: Seq<SchemaError>,
)
    requires
        violations_match(method, path, reqf, respf, es),
        !v_root(path),
        v_count(path, reqf),
    ensures
        !api_violation_free(method, path, reqf, respf),
        exists|idx: int|
            0 <= idx < es.len() && (#[trigger] es[idx]
                matches SchemaError::PlaceholderFieldCountMismatch { placeholders, path_fields }
                && placeholders == tpl_names(path).len() && path_fields == count_kind(
                reqf,
                RequestFieldKind::Path,
            )),
{
    let idx = b2i(v_req_multi(reqf)) + b2i(v_req_mixed(reqf)) + b2i(v_resp_multi(respf)) + b2i(
        v_resp_mixed(respf),
    ) + b2i(v_get(method, reqf));
    assert(0 <= idx < es.len() && (es[idx]
        matches SchemaError::PlaceholderFieldCountMismatch { placeholders, path_fields }
        && placeholders == tpl_names(path).len() && path_fields == count_kind(
        reqf,
        RequestFieldKind::Path,
    )));
}

} // verus!
