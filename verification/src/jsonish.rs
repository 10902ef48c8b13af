//! The body text format: a small, self-describing JSON-shaped encoding.
//!
//! A body is either a single quoted string (the newtype mode, where one
//! field's serialized value is the whole body) or an object of
//! `"name":"value"` members (the aggregate mode). Quotes and backslashes
//! inside a value are escaped with a backslash; parsing rejects any text
//! that does not fit this shape.

use vstd::prelude::*;

use crate::text::chars_eq_str;

verus! {

/// The members of an executable pair list, seen at the spec level.
pub open spec fn pair_views(ps: Seq<(Vec<char>, Vec<char>)>) -> Seq<(Seq<char>, Seq<char>)> {
    ps.map_values(|p: (Vec<char>, Vec<char>)| (p.0@, p.1@))
}

/// The escape of one character inside a quoted string.
pub open spec fn esc_char(c: char) -> Seq<char> {
    if c == '"' || c == '\\' {
        seq!['\\', c]
    } else {
        seq![c]
    }
}

/// The escaped form of a string's characters.
pub open spec fn esc(s: Seq<char>) -> Seq<char>
    decreases s.len(),
{
    if s.len() == 0 {
        Seq::empty()
    } else {
        esc_char(s[0]) + esc(s.skip(1))
    }
}

/// A quoted string: `"` around the escaped characters.
pub open spec fn quoted(s: Seq<char>) -> Seq<char> {
    seq!['"'] + esc(s) + seq!['"']
}

/// Parses the inside of a quoted string up to its closing quote, giving
/// the unescaped content and the text after the quote.
pub open spec fn parse_quoted_inner(s: Seq<char>) -> Option<(Seq<char>, Seq<char>)>
    decreases s.len(),
{
    if s.len() == 0 {
        None
    } else if s[0] == '"' {
        Some((Seq::empty(), s.skip(1)))
    } else if s[0] == '\\' {
        if s.len() >= 2 && (s[1] == '"' || s[1] == '\\') {
            match parse_quoted_inner(s.skip(2)) {
                Some((c, r)) => Some((seq![s[1]] + c, r)),
                None => None,
            }
        } else {
            None
        }
    } else {
        match parse_quoted_inner(s.skip(1)) {
            Some((c, r)) => Some((seq![s[0]] + c, r)),
            None => None,
        }
    }
}

/// Parses a quoted string at the head of `s`, giving its content and the
/// text after it.
pub open spec fn parse_quoted(s: Seq<char>) -> Option<(Seq<char>, Seq<char>)> {
    if s.len() >= 1 && s[0] == '"' {
        parse_quoted_inner(s.skip(1))
    } else {
        None
    }
}

/// One object member, `"name":"value"`.
pub open spec fn member_text(p: (Seq<char>, Seq<char>)) -> Seq<char> {
    quoted(p.0) + seq![':'] + quoted(p.1)
}

/// The members joined with commas.
pub open spec fn members_text(pairs: Seq<(Seq<char>, Seq<char>)>) -> Seq<char>
    decreases pairs.len(),
{
    if pairs.len() == 0 {
        Seq::empty()
    } else if pairs.len() == 1 {
        member_text(pairs[0])
    } else {
        member_text(pairs[0]) + seq![','] + members_text(pairs.skip(1))
    }
}

/// The object text for a list of members.
pub open spec fn object_text(pairs: Seq<(Seq<char>, Seq<char>)>) -> Seq<char> {
    seq!['{'] + members_text(pairs) + seq!['}']
}

/// Parses a comma-separated run of members that must end exactly at a
/// closing brace which is the last character. The fuel bounds the
/// recursion; any fuel beyond the text's length gives the same answer.
pub open spec fn parse_members(s: Seq<char>, fuel: nat) -> Option<Seq<(Seq<char>, Seq<char>)>>
    decreases fuel,
{
    if fuel == 0 {
        None
    } else {
        match parse_quoted(s) {
            None => None,
            Some((name, r1)) => {
                if r1.len() >= 1 && r1[0] == ':' {
                    match parse_quoted(r1.skip(1)) {
                        None => None,
                        Some((value, r2)) => {
                            if r2.len() == 1 && r2[0] == '}' {
                                Some(seq![(name, value)])
                            } else if r2.len() >= 1 && r2[0] == ',' {
                                match parse_members(r2.skip(1), (fuel - 1) as nat) {
                                    Some(rest) => Some(seq![(name, value)] + rest),
                                    None => None,
                                }
                            } else {
                                None
                            }
                        },
                    }
                } else {
                    None
                }
            },
        }
    }
}

/// Parses a whole object text into its members; `None` when the text is
/// not an object of quoted-string members.
pub open spec fn parse_object(s: Seq<char>) -> Option<Seq<(Seq<char>, Seq<char>)>> {
    if s.len() >= 2 && s[0] == '{' {
        if s.len() == 2 && s[1] == '}' {
            Some(Seq::empty())
        } else {
            parse_members(s.skip(1), s.len())
        }
    } else {
        None
    }
}

/// The value under the first member with the given name.
pub open spec fn lookup_pair(pairs: Seq<(Seq<char>, Seq<char>)>, name: Seq<char>) -> Option<
    Seq<char>,
>
    decreases pairs.len(),
{
    if pairs.len() == 0 {
        None
    } else if pairs[0].0 == name {
        Some(pairs[0].1)
    } else {
        lookup_pair(pairs.skip(1), name)
    }
}

/// Whatever a quoted string's parse leaves behind is strictly shorter than
/// what it was given, by at least the two quotes.
pub proof fn lemma_parse_quoted_shrinks(s: Seq<char>)
    ensures
        parse_quoted(s) matches Some(p) ==> p.1.len() + 2 <= s.len(),
    decreases s.len(),
{
    if s.len() >= 1 && s[0] == '"' {
        lemma_parse_quoted_inner_shrinks(s.skip(1));
    }
}

proof fn lemma_parse_quoted_inner_shrinks(s: Seq<char>)
    ensures
        parse_quoted_inner(s) matches Some(p) ==> p.1.len() + 1 <= s.len(),
    decreases s.len(),
{
    if s.len() == 0 {
    } else if s[0] == '"' {
    } else if s[0] == '\\' {
        if s.len() >= 2 && (s[1] == '"' || s[1] == '\\') {
            lemma_parse_quoted_inner_shrinks(s.skip(2));
        }
    } else {
        lemma_parse_quoted_inner_shrinks(s.skip(1));
    }
}

/// Parsing a quoted string inverts quoting, whatever follows it.
pub proof fn lemma_parse_quoted_inverts(v: Seq<char>, rest: Seq<char>)
    ensures
        parse_quoted(quoted(v) + rest) == Some((v, rest)),
{
    let s = quoted(v) + rest;
    assert(s[0] == '"');
    assert(s.skip(1) =~= esc(v) + seq!['"'] + rest);
    lemma_parse_quoted_inner_inverts(v, rest);
}

proof fn lemma_parse_quoted_inner_inverts(v: Seq<char>, rest: Seq<char>)
    ensures
        parse_quoted_inner(esc(v) + seq!['"'] + rest) == Some((v, rest)),
    decreases v.len(),
{
    let s = esc(v) + seq!['"'] + rest;
    if v.len() == 0 {
        assert(esc(v) =~= Seq::<char>::empty());
        assert(s[0] == '"');
        assert(s.skip(1) =~= rest);
        assert(Seq::<char>::empty() =~= v);
    } else {
        let c = v[0];
        lemma_parse_quoted_inner_inverts(v.skip(1), rest);
        if c == '"' || c == '\\' {
            assert(s[0] == '\\' && s.len() >= 2 && s[1] == c);
            assert(s.skip(2) =~= esc(v.skip(1)) + seq!['"'] + rest);
            assert(parse_quoted_inner(s) == Some((seq![c] + v.skip(1), rest)));
            assert(seq![c] + v.skip(1) =~= v);
        } else {
            assert(s[0] == c && c != '"' && c != '\\');
            assert(s.skip(1) =~= esc(v.skip(1)) + seq!['"'] + rest);
            assert(parse_quoted_inner(s) == Some((seq![c] + v.skip(1), rest)));
            assert(seq![c] + v.skip(1) =~= v);
        }
    }
}

/// Beyond a floor of one unit per member, the fuel does not matter.
pub proof fn lemma_parse_members_fuel(s: Seq<char>, f1: nat, f2: nat)
    requires
        f1 > s.len(),
        f2 > s.len(),
    ensures
        parse_members(s, f1) == parse_members(s, f2),
    decreases s.len(),
{
    match parse_quoted(s) {
        None => {},
        Some((name, r1)) => {
            lemma_parse_quoted_shrinks(s);
            if r1.len() >= 1 && r1[0] == ':' {
                match parse_quoted(r1.skip(1)) {
                    None => {},
                    Some((value, r2)) => {
                        lemma_parse_quoted_shrinks(r1.skip(1));
                        if r2.len() == 1 && r2[0] == '}' {
                        } else if r2.len() >= 1 && r2[0] == ',' {
                            assert(r2.skip(1).len() < s.len());
                            lemma_parse_members_fuel(
                                r2.skip(1),
                                (f1 - 1) as nat,
                                (f2 - 1) as nat,
                            );
                        }
                    },
                }
            }
        },
    }
}

/// Each member contributes at least one character to the joined text.
pub proof fn lemma_members_text_len(pairs: Seq<(Seq<char>, Seq<char>)>)
    ensures
        members_text(pairs).len() >= pairs.len(),
    decreases pairs.len(),
{
    if pairs.len() > 1 {
        lemma_members_text_len(pairs.skip(1));
    }
}

/// Parsing members inverts joining them, for any fuel above the count.
pub proof fn lemma_parse_members_inverts(pairs: Seq<(Seq<char>, Seq<char>)>, fuel: nat)
    requires
        pairs.len() >= 1,
        fuel >= pairs.len(),
    ensures
        parse_members(members_text(pairs) + seq!['}'], fuel) == Some(pairs),
    decreases pairs.len(),
{
    let s = members_text(pairs) + seq!['}'];
    let name = pairs[0].0;
    let value = pairs[0].1;
    if pairs.len() == 1 {
        assert(s =~= quoted(name) + (seq![':'] + quoted(value) + seq!['}']));
        lemma_parse_quoted_inverts(name, seq![':'] + quoted(value) + seq!['}']);
        let r1 = seq![':'] + quoted(value) + seq!['}'];
        assert(r1[0] == ':');
        assert(r1.skip(1) =~= quoted(value) + seq!['}']);
        lemma_parse_quoted_inverts(value, seq!['}']);
        let r2 = seq!['}'];
        assert(r2.len() == 1 && r2[0] == '}');
        assert(parse_members(s, fuel) == Some(seq![(name, value)]));
        assert(seq![(name, value)] =~~= pairs);
    } else {
        let tail_text = members_text(pairs.skip(1)) + seq!['}'];
        assert(s =~= quoted(name) + (seq![':'] + quoted(value) + seq![','] + tail_text));
        lemma_parse_quoted_inverts(name, seq![':'] + quoted(value) + seq![','] + tail_text);
        let r1 = seq![':'] + quoted(value) + seq![','] + tail_text;
        assert(r1[0] == ':');
        assert(r1.skip(1) =~= quoted(value) + (seq![','] + tail_text));
        lemma_parse_quoted_inverts(value, seq![','] + tail_text);
        let r2 = seq![','] + tail_text;
        assert(r2.len() >= 1 && r2[0] == ',');
        assert(r2[0] != '}');
        assert(r2.skip(1) =~= tail_text);
        lemma_parse_members_inverts(pairs.skip(1), (fuel - 1) as nat);
        assert(parse_members(s, fuel) == Some(seq![(name, value)] + pairs.skip(1)));
        assert(seq![(name, value)] + pairs.skip(1) =~~= pairs);
    }
}

/// Parsing an object inverts building one, for any nonempty member list.
pub proof fn lemma_parse_object_inverts(pairs: Seq<(Seq<char>, Seq<char>)>)
    requires
        pairs.len() >= 1,
    ensures
        parse_object(object_text(pairs)) == Some(pairs),
{
    let s = object_text(pairs);
    lemma_members_text_len(pairs);
    assert(s.len() >= 2 && s[0] == '{');
    assert(members_text(pairs).len() >= 1);
    assert(!(s.len() == 2 && s[1] == '}')) by {
        if s.len() == 2 {
            assert(members_text(pairs).len() == 0);
        }
    }
    assert(s.skip(1) =~= members_text(pairs) + seq!['}']);
    lemma_parse_members_inverts(pairs, s.len());
}

/// Builds the quoted form of a string's characters.
pub fn quote_chars(v: &Vec<char>) -> (r: Vec<char>)
    ensures
        r@ == quoted(v@),
{
    let mut r: Vec<char> = Vec::new();
    r.push('"');
    let mut body = esc_from(v, 0);
    proof {
        assert(v@.skip(0) =~= v@);
    }
    r.append(&mut body);
    r.push('"');
    proof {
        assert(r@ =~= quoted(v@));
    }
    r
}

/// Escapes the characters of `v` from position `i` on.
fn esc_from(v: &Vec<char>, i: usize) -> (r: Vec<char>)
    requires
        i <= v@.len(),
    ensures
        r@ == esc(v@.skip(i as int)),
    decreases v@.len() - i,
{
    if i == v.len() {
        proof {
            assert(v@.skip(i as int) =~= Seq::<char>::empty());
        }
        Vec::new()
    } else {
        let c = v[i];
        let mut r: Vec<char> = Vec::new();
        if c == '"' || c == '\\' {
            r.push('\\');
            r.push(c);
        } else {
            r.push(c);
        }
        let mut rest = esc_from(v, i + 1);
        proof {
            assert(v@.skip(i as int)[0] == v@[i as int]);
            assert(v@.skip(i as int).skip(1) =~= v@.skip(i + 1));
            assert(r@ == esc_char(v@[i as int]));
        }
        r.append(&mut rest);
        r
    }
}

/// Parses a quoted string starting at position `i`, giving its content and
/// the position after its closing quote.
pub fn parse_quoted_at(v: &Vec<char>, i: usize) -> (r: Option<(Vec<char>, usize)>)
    requires
        i <= v@.len(),
    ensures
        match r {
            Some(p) => i + 2 <= p.1 <= v@.len() && parse_quoted(v@.skip(i as int)) == Some(
                (p.0@, v@.skip(p.1 as int)),
            ),
            None => parse_quoted(v@.skip(i as int)) is None,
        },
{
    proof {
        if v@.skip(i as int).len() >= 1 {
            assert(v@.skip(i as int)[0] == v@[i as int]);
        }
    }
    if i < v.len() && v[i] == '"' {
        proof {
            assert(v@.skip(i as int).skip(1) =~= v@.skip(i + 1));
        }
        parse_quoted_inner_at(v, i + 1)
    } else {
        None
    }
}

/// Parses up to and over a closing quote from position `i` on.
fn parse_quoted_inner_at(v: &Vec<char>, i: usize) -> (r: Option<(Vec<char>, usize)>)
    requires
        i <= v@.len(),
    ensures
        match r {
            Some(p) => i + 1 <= p.1 <= v@.len() && parse_quoted_inner(v@.skip(i as int)) == Some(
                (p.0@, v@.skip(p.1 as int)),
            ),
            None => parse_quoted_inner(v@.skip(i as int)) is None,
        },
    decreases v@.len() - i,
{
    if i == v.len() {
        proof {
            assert(v@.skip(i as int) =~= Seq::<char>::empty());
        }
        None
    } else {
        let c = v[i];
        proof {
            assert(v@.skip(i as int)[0] == v@[i as int]);
        }
        if c == '"' {
            proof {
                assert(v@.skip(i as int).skip(1) =~= v@.skip(i + 1));
            }
            Some((Vec::new(), i + 1))
        } else if c == '\\' {
            if v.len() - i >= 2 {
                proof {
                    assert(v@.skip(i as int)[1] == v@[i + 1]);
                }
                let e = v[i + 1];
                if e == '"' || e == '\\' {
                    proof {
                        assert(v@.skip(i as int).skip(2) =~= v@.skip(i + 2));
                    }
                    match parse_quoted_inner_at(v, i + 2) {
                        Some(p) => {
                            let (content, j) = p;
                            let mut r: Vec<char> = Vec::new();
                            r.push(e);
                            let mut tail = content;
                            r.append(&mut tail);
                            Some((r, j))
                        },
                        None => None,
                    }
                } else {
                    None
                }
            } else {
                proof {
                    assert(v@.skip(i as int).len() < 2);
                }
                None
            }
        } else {
            proof {
                assert(v@.skip(i as int).skip(1) =~= v@.skip(i + 1));
            }
            match parse_quoted_inner_at(v, i + 1) {
                Some(p) => {
                    let (content, j) = p;
                    let mut r: Vec<char> = Vec::new();
                    r.push(c);
                    let mut tail = content;
                    r.append(&mut tail);
                    Some((r, j))
                },
                None => None,
            }
        }
    }
}

/// Parses a run of members from position `i` to the end of the text.
fn parse_members_at(v: &Vec<char>, i: usize) -> (r: Option<Vec<(Vec<char>, Vec<char>)>>)
    requires
        i <= v@.len(),
    ensures
        match r {
            Some(ps) => parse_members(v@.skip(i as int), (v@.len() - i + 1) as nat) == Some(
                pair_views(ps@),
            ),
            None => parse_members(v@.skip(i as int), (v@.len() - i + 1) as nat) is None,
        },
    decreases v@.len() - i,
{
    let ghost s = v@.skip(i as int);
    let ghost fuel = (v@.len() - i + 1) as nat;
    match parse_quoted_at(v, i) {
        None => None,
        Some(p1) => {
            let (name, j) = p1;
            proof {
                assert(parse_quoted(s) == Some((name@, v@.skip(j as int))));
            }
            if j < v.len() && v[j] == ':' {
                proof {
                    assert(v@.skip(j as int)[0] == v@[j as int]);
                    assert(v@.skip(j as int).skip(1) =~= v@.skip(j + 1));
                }
                match parse_quoted_at(v, j + 1) {
                    None => None,
                    Some(p2) => {
                        let (value, k) = p2;
                        proof {
                            assert(parse_quoted(v@.skip(j + 1)) == Some(
                                (value@, v@.skip(k as int)),
                            ));
                            if k < v@.len() {
                                assert(v@.skip(k as int)[0] == v@[k as int]);
                            }
                        }
                        if k == v.len() - 1 && v[k] == '}' {
                            proof {
                                assert(v@.skip(k as int).len() == 1);
                            }
                            let mut ps: Vec<(Vec<char>, Vec<char>)> = Vec::new();
                            ps.push((name, value));
                            proof {
                                assert(pair_views(ps@) =~~= seq![(name@, value@)]);
                            }
                            Some(ps)
                        } else if k < v.len() && v[k] == ',' {
                            proof {
                                assert(v@.skip(k as int).skip(1) =~= v@.skip(k + 1));
                            }
                            match parse_members_at(v, k + 1) {
                                None => {
                                    proof {
                                        lemma_parse_members_fuel(
                                            v@.skip(k + 1),
                                            (v@.len() - (k + 1) + 1) as nat,
                                            (fuel - 1) as nat,
                                        );
                                    }
                                    None
                                },
                                Some(rest) => {
                                    proof {
                                        lemma_parse_members_fuel(
                                            v@.skip(k + 1),
                                            (v@.len() - (k + 1) + 1) as nat,
                                            (fuel - 1) as nat,
                                        );
                                    }
                                    let mut ps: Vec<(Vec<char>, Vec<char>)> = Vec::new();
                                    ps.push((name, value));
                                    let mut tail = rest;
                                    let ghost tail_snapshot = tail@;
                                    ps.append(&mut tail);
                                    proof {
                                        assert(pair_views(ps@) =~~= pair_views(
                                            seq![(name, value)],
                                        ) + pair_views(tail_snapshot));
                                    }
                                    Some(ps)
                                },
                            }
                        } else {
                            None
                        }
                    },
                }
            } else {
                proof {
                    if j < v@.len() {
                        assert(v@.skip(j as int)[0] == v@[j as int]);
                    } else {
                        assert(v@.skip(j as int).len() == 0);
                    }
                }
                None
            }
        },
    }
}

/// Parses a whole object text into its member pairs.
pub fn parse_object_chars(v: &Vec<char>) -> (r: Option<Vec<(Vec<char>, Vec<char>)>>)
    ensures
        match r {
            Some(ps) => parse_object(v@) == Some(pair_views(ps@)),
            None => parse_object(v@) is None,
        },
{
    proof {
        if v@.len() >= 1 {
            assert(v@[0] == v@.skip(0)[0]);
        }
    }
    if v.len() >= 2 && v[0] == '{' {
        if v.len() == 2 && v[1] == '}' {
            let ps: Vec<(Vec<char>, Vec<char>)> = Vec::new();
            proof {
                assert(pair_views(ps@) =~~= Seq::<(Seq<char>, Seq<char>)>::empty());
            }
            Some(ps)
        } else {
            proof {
                assert(v@.skip(1) =~= v@.skip(1 as int));
                assert((v@.len() - 1 + 1) as nat == v@.len());
            }
            parse_members_at(v, 1)
        }
    } else {
        None
    }
}

/// Finds the value of the first member with the given name.
pub fn lookup_member(ps: &Vec<(Vec<char>, Vec<char>)>, name: &str) -> (r: Option<Vec<char>>)
    ensures
        match r {
            Some(value) => lookup_pair(pair_views(ps@), name@) == Some(value@),
            None => lookup_pair(pair_views(ps@), name@) is None,
        },
{
    let mut i: usize = 0;
    proof {
        assert(pair_views(ps@).skip(0) =~= pair_views(ps@));
    }
    while i < ps.len()
        invariant
            i <= ps@.len(),
            lookup_pair(pair_views(ps@), name@) == lookup_pair(
                pair_views(ps@).skip(i as int),
                name@,
            ),
        decreases ps@.len() - i,
    {
        proof {
            assert(pair_views(ps@).skip(i as int)[0] == pair_views(ps@)[i as int]);
        }
        if chars_eq_str(&ps[i].0, name) {
            let mut out: Vec<char> = Vec::new();
            let mut j: usize = 0;
            let src = &ps[i].1;
            while j < src.len()
                invariant
                    j <= src@.len(),
                    out@ == src@.take(j as int),
                decreases src@.len() - j,
            {
                out.push(src[j]);
                j = j + 1;
                proof {
                    assert(src@.take(j as int) =~= src@.take(j - 1).push(src@[j - 1]));
                }
            }
            proof {
                assert(src@.take(src@.len() as int) =~= src@);
            }
            return Some(out);
        }
        i = i + 1;
        proof {
            assert(pair_views(ps@).skip(i - 1).skip(1) =~= pair_views(ps@).skip(i as int));
        }
    }
    proof {
        assert(pair_views(ps@).skip(i as int).len() == 0);
    }
    None
}

} // verus!
