//! The raw wire envelopes the generated codecs read and write.

use vstd::prelude::*;

use crate::jsonish::lookup_pair;
use crate::text::str_eq;

verus! {

/// A raw HTTP request: the envelope an encoded request becomes and a
/// decoded request is read from. The body carries the textual payload of
/// the fixed structured format.
#[derive(Debug)]
pub struct RawHttpRequest {
    pub method: String,
    pub path: String,
    pub query: Option<String>,
    pub headers: Vec<(String, String)>,
    pub body: String,
}

/// A raw HTTP response: status, headers, and the textual body payload.
#[derive(Debug)]
pub struct RawHttpResponse {
    pub status: u16,
    pub headers: Vec<(String, String)>,
    pub body: String,
}

/// The header pairs of an envelope, seen at the spec level.
pub open spec fn header_views(hs: Seq<(String, String)>) -> Seq<(Seq<char>, Seq<char>)> {
    hs.map_values(|p: (String, String)| (p.0@, p.1@))
}

/// A status code that counts as success.
pub open spec fn is_success_status(status: u16) -> bool {
    200 <= status < 300
}

/// Finds the value of the first header with the given name.
pub fn lookup_header(hs: &Vec<(String, String)>, name: &str) -> (r: Option<String>)
    ensures
        match r {
            Some(v) => lookup_pair(header_views(hs@), name@) == Some(v@),
            None => lookup_pair(header_views(hs@), name@) is None,
        },
{
    let mut i: usize = 0;
    proof {
        assert(header_views(hs@).skip(0) =~= header_views(hs@));
    }
    while i < hs.len()
        invariant
            i <= hs@.len(),
            lookup_pair(header_views(hs@), name@) == lookup_pair(
                header_views(hs@).skip(i as int),
                name@,
            ),
        decreases hs@.len() - i,
    {
        proof {
            assert(header_views(hs@).skip(i as int)[0] == header_views(hs@)[i as int]);
        }
        if str_eq(hs[i].0.as_str(), name) {
            return Some(hs[i].1.clone());
        }
        i = i + 1;
        proof {
            assert(header_views(hs@).skip(i - 1).skip(1) =~= header_views(hs@).skip(i as int));
        }
    }
    proof {
        assert(header_views(hs@).skip(i as int).len() == 0);
    }
    None
}

} // verus!
