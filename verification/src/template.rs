//! The path template: literal segments and named placeholders.

use vstd::prelude::*;

use crate::errors::SchemaError;
use crate::split::{split, split_on};
use crate::text::{str_chars, string_of_chars};

verus! {

/// One segment of a path template: literal text, or a placeholder bound
/// to the path field of the same name.
#[derive(Debug)]
pub enum Segment {
    Literal(String),
    Placeholder(String),
}

/// A parsed path template, in segment order.
#[derive(Debug)]
pub struct PathTemplate {
    pub segments: Vec<Segment>,
}

/// Whether a segment is what one piece of the template text describes: a
/// piece opening with the placeholder marker `:` names a placeholder, any
/// other piece is literal.
pub open spec fn seg_matches(seg: Segment, piece: Seq<char>) -> bool {
    if piece.len() >= 1 && piece[0] == ':' {
        seg matches Segment::Placeholder(n) && n@ == piece.skip(1)
    } else {
        seg matches Segment::Literal(l) && l@ == piece
    }
}

/// Whether the segments are exactly the parse of the template text: the
/// text opens with the path root `/` and the segments mirror the pieces
/// between the separators, in order.
pub open spec fn template_matches(segs: Seq<Segment>, path: Seq<char>) -> bool {
    &&& path.len() >= 1
    &&& path[0] == '/'
    &&& segs.len() == split_on(path.skip(1), '/').len()
    &&& forall|i: int|
        0 <= i < segs.len() ==> seg_matches(#[trigger] segs[i], split_on(path.skip(1), '/')[i])
}

/// How many segments are placeholders.
pub open spec fn count_placeholders(segs: Seq<Segment>) -> int
    decreases segs.len(),
{
    if segs.len() == 0 {
        0
    } else {
        (if segs[0] is Placeholder {
            1int
        } else {
            0int
        }) + count_placeholders(segs.skip(1))
    }
}

/// The placeholder names, in segment order.
pub open spec fn placeholder_names(segs: Seq<Segment>) -> Seq<Seq<char>>
    decreases segs.len(),
{
    if segs.len() == 0 {
        Seq::empty()
    } else {
        (match segs[0] {
            Segment::Placeholder(n) => seq![n@],
            Segment::Literal(_) => Seq::empty(),
        }) + placeholder_names(segs.skip(1))
    }
}

/// The placeholder name a segment declares; empty for a literal.
pub open spec fn seg_placeholder_name(seg: Segment) -> Seq<char> {
    match seg {
        Segment::Placeholder(n) => n@,
        Segment::Literal(_) => Seq::empty(),
    }
}

/// The placeholder names the pieces of a template text declare, in order.
pub open spec fn piece_placeholder_names(pieces: Seq<Seq<char>>) -> Seq<Seq<char>>
    decreases pieces.len(),
{
    if pieces.len() == 0 {
        Seq::empty()
    } else {
        (if pieces[0].len() >= 1 && pieces[0][0] == ':' {
            seq![pieces[0].skip(1)]
        } else {
            Seq::empty()
        }) + piece_placeholder_names(pieces.skip(1))
    }
}

/// Segments that match the pieces declare the same placeholder names.
pub proof fn lemma_placeholder_names_align(segs: Seq<Segment>, pieces: Seq<Seq<char>>)
    requires
        segs.len() == pieces.len(),
        forall|i: int| 0 <= i < segs.len() ==> seg_matches(#[trigger] segs[i], pieces[i]),
    ensures
        placeholder_names(segs) == piece_placeholder_names(pieces),
    decreases segs.len(),
{
    if segs.len() != 0 {
        assert forall|i: int| 0 <= i < segs.skip(1).len() implies seg_matches(
            #[trigger] segs.skip(1)[i],
            pieces.skip(1)[i],
        ) by {
            assert(segs.skip(1)[i] == segs[i + 1]);
            assert(pieces.skip(1)[i] == pieces[i + 1]);
        }
        lemma_placeholder_names_align(segs.skip(1), pieces.skip(1));
        assert(seg_matches(segs[0], pieces[0]));
        assert(placeholder_names(segs) =~~= piece_placeholder_names(pieces));
    }
}

/// There are as many placeholder names as placeholder segments.
pub proof fn lemma_count_is_names_len(segs: Seq<Segment>)
    ensures
        count_placeholders(segs) == placeholder_names(segs).len(),
    decreases segs.len(),
{
    if segs.len() != 0 {
        lemma_count_is_names_len(segs.skip(1));
    }
}

/// The segment position of the first placeholder with the given name, or
/// -1 when there is none.
pub open spec fn placeholder_pos(segs: Seq<Segment>, name: Seq<char>) -> int
    decreases segs.len(),
{
    if segs.len() == 0 {
        -1
    } else if segs[0] matches Segment::Placeholder(n) && n@ == name {
        0
    } else {
        let r = placeholder_pos(segs.skip(1), name);
        if r == -1 {
            -1
        } else {
            r + 1
        }
    }
}

/// Whether a segment is a placeholder with the given name.
pub open spec fn seg_named(seg: Segment, name: Seq<char>) -> bool {
    seg matches Segment::Placeholder(n) && n@ == name
}

/// The first placeholder position, counted past a prefix without one.
pub proof fn lemma_placeholder_pos_skip(segs: Seq<Segment>, name: Seq<char>, i: int)
    requires
        0 <= i <= segs.len(),
        forall|j: int| 0 <= j < i ==> !seg_named(#[trigger] segs[j], name),
    ensures
        placeholder_pos(segs, name) == (if placeholder_pos(segs.skip(i), name) == -1 {
            -1int
        } else {
            i + placeholder_pos(segs.skip(i), name)
        }),
    decreases i,
{
    if i > 0 {
        assert(!seg_named(segs[0], name));
        assert forall|j: int| 0 <= j < i - 1 implies !seg_named(#[trigger] segs.skip(1)[j], name) by {
            assert(segs.skip(1)[j] == segs[j + 1]);
        }
        lemma_placeholder_pos_skip(segs.skip(1), name, i - 1);
        assert(segs.skip(1).skip(i - 1) =~= segs.skip(i));
        lemma_placeholder_pos(segs.skip(i), name);
        let p1 = placeholder_pos(segs.skip(1), name);
        assert(placeholder_pos(segs, name) == (if p1 == -1 {
            -1int
        } else {
            p1 + 1
        }));
    } else {
        assert(segs.skip(0) =~= segs);
    }
}

/// A found placeholder position indexes a placeholder of that name.
pub proof fn lemma_placeholder_pos(segs: Seq<Segment>, name: Seq<char>)
    ensures
        placeholder_pos(segs, name) >= 0 ==> {
            let j = placeholder_pos(segs, name);
            j < segs.len() && (segs[j] matches Segment::Placeholder(n) && n@ == name)
        },
        placeholder_pos(segs, name) == -1 || placeholder_pos(segs, name) >= 0,
    decreases segs.len(),
{
    if segs.len() != 0 {
        lemma_placeholder_pos(segs.skip(1), name);
    }
}

/// The placeholder count is bounded by the segment count.
pub proof fn lemma_count_placeholders_bounds(segs: Seq<Segment>)
    ensures
        0 <= count_placeholders(segs) <= segs.len(),
    decreases segs.len(),
{
    if segs.len() != 0 {
        lemma_count_placeholders_bounds(segs.skip(1));
    }
}

impl PathTemplate {
    /// Parses a template text into segments. Succeeds exactly when the
    /// text opens with the path root `/`.
    pub fn parse(path: &str) -> (r: Result<PathTemplate, SchemaError>)
        ensures
            r is Ok <==> path@.len() >= 1 && path@[0] == '/',
            r matches Ok(t) ==> template_matches(t.segments@, path@),
            r matches Err(e) ==> e == SchemaError::PathTemplateMissingRoot,
    {
        let chars = str_chars(path);
        if chars.len() == 0 {
            return Err(SchemaError::PathTemplateMissingRoot);
        }
        if chars[0] != '/' {
            return Err(SchemaError::PathTemplateMissingRoot);
        }
        let mut rest: Vec<char> = Vec::new();
        let mut i: usize = 1;
        while i < chars.len()
            invariant
                1 <= i <= chars@.len(),
                rest@ == chars@.subrange(1, i as int),
            decreases chars@.len() - i,
        {
            rest.push(chars[i]);
            i = i + 1;
            proof {
                assert(chars@.subrange(1, i as int) =~= chars@.subrange(1, i - 1).push(
                    chars@[i - 1],
                ));
            }
        }
        proof {
            assert(rest@ =~= chars@.skip(1));
        }
        let pieces = split(&rest, '/');
        let ghost sp = split_on(path@.skip(1), '/');
        proof {
            assert(pieces.deep_view() == sp);
            assert(pieces@.len() == pieces.deep_view().len());
        }
        let mut segments: Vec<Segment> = Vec::new();
        let mut k: usize = 0;
        while k < pieces.len()
            invariant
                k <= pieces@.len(),
                pieces.deep_view() == sp,
                pieces@.len() == sp.len(),
                segments@.len() == k,
                forall|j: int| 0 <= j < k ==> seg_matches(#[trigger] segments@[j], sp[j]),
            decreases pieces@.len() - k,
        {
            let piece = &pieces[k];
            proof {
                assert(piece@ == sp[k as int]);
            }
            if piece.len() >= 1 {
                let marker = piece[0];
                if marker == ':' {
                    let mut namechars: Vec<char> = Vec::new();
                    let mut m: usize = 1;
                    while m < piece.len()
                        invariant
                            1 <= m <= piece@.len(),
                            namechars@ == piece@.subrange(1, m as int),
                        decreases piece@.len() - m,
                    {
                        namechars.push(piece[m]);
                        m = m + 1;
                        proof {
                            assert(piece@.subrange(1, m as int) =~= piece@.subrange(
                                1,
                                m - 1,
                            ).push(piece@[m - 1]));
                        }
                    }
                    proof {
                        assert(namechars@ =~= piece@.skip(1));
                    }
                    segments.push(Segment::Placeholder(string_of_chars(&namechars)));
                } else {
                    segments.push(Segment::Literal(string_of_chars(piece)));
                }
            } else {
                segments.push(Segment::Literal(string_of_chars(piece)));
            }
            k = k + 1;
        }
        Ok(PathTemplate { segments })
    }

    /// How many segments are placeholders.
    pub fn placeholder_count(&self) -> (r: usize)
        ensures
            r == count_placeholders(self.segments@),
    {
        proof {
            assert(self.segments@.skip(0) =~= self.segments@);
        }
        count_placeholders_from(&self.segments, 0)
    }
}

/// How many segments from position `i` on are placeholders.
fn count_placeholders_from(segs: &Vec<Segment>, i: usize) -> (r: usize)
    requires
        i <= segs@.len(),
    ensures
        r == count_placeholders(segs@.skip(i as int)),
    decreases segs@.len() - i,
{
    proof {
        lemma_count_placeholders_bounds(segs@.skip(i as int));
    }
    if i == segs.len() {
        proof {
            assert(segs@.skip(i as int) =~= Seq::<Segment>::empty());
        }
        0
    } else {
        let rest = count_placeholders_from(segs, i + 1);
        proof {
            assert(segs@.skip(i as int)[0] == segs@[i as int]);
            assert(segs@.skip(i as int).skip(1) =~= segs@.skip(i + 1));
            lemma_count_placeholders_bounds(segs@.skip(i + 1));
        }
        match &segs[i] {
            Segment::Placeholder(_) => rest + 1,
            Segment::Literal(_) => rest,
        }
    }
}

} // verus!
