//! Splitting and joining on a separator character.
//!
//! The path codec joins segments with `/` and the query codec joins
//! `name=value` pieces with `&`; decoding splits the incoming text again.
//! A query piece is further divided at its first `=`.

use vstd::prelude::*;

verus! {

/// The pieces of `s` between occurrences of `sep`. Splitting the empty
/// string gives one empty piece, so the result is never empty.
pub open spec fn split_on(s: Seq<char>, sep: char) -> Seq<Seq<char>>
    decreases s.len(),
{
    if s.len() == 0 {
        seq![Seq::empty()]
    } else if s[0] == sep {
        seq![Seq::<char>::empty()] + split_on(s.skip(1), sep)
    } else {
        let rest = split_on(s.skip(1), sep);
        seq![seq![s[0]] + rest[0]] + rest.skip(1)
    }
}

/// The pieces joined with `sep` between each two.
pub open spec fn join_with(pieces: Seq<Seq<char>>, sep: char) -> Seq<char>
    decreases pieces.len(),
{
    if pieces.len() == 0 {
        Seq::empty()
    } else if pieces.len() == 1 {
        pieces[0]
    } else {
        pieces[0] + seq![sep] + join_with(pieces.skip(1), sep)
    }
}

/// The part of `s` before its first `sep` and the part after, or `None`
/// when `s` has no `sep` at all.
pub open spec fn split_first(s: Seq<char>, sep: char) -> Option<(Seq<char>, Seq<char>)>
    decreases s.len(),
{
    if s.len() == 0 {
        None
    } else if s[0] == sep {
        Some((Seq::empty(), s.skip(1)))
    } else {
        match split_first(s.skip(1), sep) {
            Some((a, b)) => Some((seq![s[0]] + a, b)),
            None => None,
        }
    }
}

/// Splitting always yields at least one piece.
pub proof fn lemma_split_nonempty(s: Seq<char>, sep: char)
    ensures
        split_on(s, sep).len() >= 1,
    decreases s.len(),
{
    if s.len() != 0 {
        lemma_split_nonempty(s.skip(1), sep);
    }
}

/// Splitting a string free of the separator gives that one string back.
pub proof fn lemma_split_single(s: Seq<char>, sep: char)
    requires
        forall|i: int| 0 <= i < s.len() ==> s[i] != sep,
    ensures
        split_on(s, sep) =~~= seq![s],
    decreases s.len(),
{
    if s.len() == 0 {
        assert(split_on(s, sep) =~~= seq![s]);
    } else {
        lemma_split_single(s.skip(1), sep);
        let rest = split_on(s.skip(1), sep);
        assert(rest[0] == s.skip(1));
        assert(seq![s[0]] + rest[0] =~= s);
        assert(rest.skip(1) =~~= Seq::<Seq<char>>::empty());
        assert(split_on(s, sep) =~~= seq![s]);
    }
}

/// Splitting after joining one piece, a separator, and a tail in which the
/// piece plays no further part, peels that piece off.
pub proof fn lemma_split_peel(a: Seq<char>, t: Seq<char>, sep: char)
    requires
        forall|i: int| 0 <= i < a.len() ==> a[i] != sep,
    ensures
        split_on(a + seq![sep] + t, sep) =~~= seq![a] + split_on(t, sep),
    decreases a.len(),
{
    let s = a + seq![sep] + t;
    if a.len() == 0 {
        assert(s[0] == sep);
        assert(s.skip(1) =~= t);
        assert(split_on(s, sep) =~~= seq![Seq::<char>::empty()] + split_on(t, sep));
        assert(seq![a] =~~= seq![Seq::<char>::empty()]);
    } else {
        lemma_split_peel(a.skip(1), t, sep);
        lemma_split_nonempty(a.skip(1) + seq![sep] + t, sep);
        assert(s[0] == a[0]);
        assert(s[0] != sep);
        assert(s.skip(1) =~= a.skip(1) + seq![sep] + t);
        let rest = split_on(s.skip(1), sep);
        assert(rest =~~= seq![a.skip(1)] + split_on(t, sep));
        assert(rest[0] == a.skip(1));
        assert(seq![s[0]] + rest[0] =~= a);
        assert(rest.skip(1) =~~= split_on(t, sep));
        assert(split_on(s, sep) =~~= seq![a] + split_on(t, sep));
    }
}

/// Splitting inverts joining, as long as no piece holds the separator.
pub proof fn lemma_split_join(pieces: Seq<Seq<char>>, sep: char)
    requires
        pieces.len() >= 1,
        forall|i: int, j: int|
            0 <= i < pieces.len() && 0 <= j < pieces[i].len() ==> #[trigger] pieces[i][j] != sep,
    ensures
        split_on(join_with(pieces, sep), sep) =~~= pieces,
    decreases pieces.len(),
{
    if pieces.len() == 1 {
        lemma_split_single(pieces[0], sep);
        assert(split_on(join_with(pieces, sep), sep) =~~= seq![pieces[0]]);
        assert(seq![pieces[0]] =~~= pieces);
    } else {
        lemma_split_join(pieces.skip(1), sep);
        lemma_split_peel(pieces[0], join_with(pieces.skip(1), sep), sep);
        assert(split_on(join_with(pieces, sep), sep) =~~= seq![pieces[0]] + pieces.skip(1));
        assert(seq![pieces[0]] + pieces.skip(1) =~~= pieces);
    }
}

/// No piece of a split holds the separator.
pub proof fn lemma_split_pieces_free(s: Seq<char>, sep: char)
    ensures
        forall|k: int, j: int|
            0 <= k < split_on(s, sep).len() && 0 <= j < split_on(s, sep)[k].len()
                ==> #[trigger] split_on(s, sep)[k][j] != sep,
    decreases s.len(),
{
    if s.len() == 0 {
    } else {
        lemma_split_pieces_free(s.skip(1), sep);
        let rest = split_on(s.skip(1), sep);
        if s[0] == sep {
            let whole = split_on(s, sep);
            assert forall|k: int, j: int|
                0 <= k < whole.len() && 0 <= j < whole[k].len() implies #[trigger] whole[k][j]
                != sep by {
                if k >= 1 {
                    assert(whole[k] == rest[k - 1]);
                }
            }
        } else {
            lemma_split_nonempty(s.skip(1), sep);
            let whole = split_on(s, sep);
            assert forall|k: int, j: int|
                0 <= k < whole.len() && 0 <= j < whole[k].len() implies #[trigger] whole[k][j]
                != sep by {
                if k == 0 {
                    assert(whole[0] == seq![s[0]] + rest[0]);
                    if j >= 1 {
                        assert(whole[0][j] == rest[0][j - 1]);
                    }
                } else {
                    assert(whole[k] == rest.skip(1)[k - 1]);
                    assert(whole[k] == rest[k]);
                }
            }
        }
    }
}

/// Dividing at the first separator inverts joining a separator-free prefix
/// to a separator and a tail.
pub proof fn lemma_split_first_of_concat(a: Seq<char>, t: Seq<char>, sep: char)
    requires
        forall|i: int| 0 <= i < a.len() ==> a[i] != sep,
    ensures
        split_first(a + seq![sep] + t, sep) == Some((a, t)),
    decreases a.len(),
{
    let s = a + seq![sep] + t;
    if a.len() == 0 {
        assert(s[0] == sep);
        assert(s.skip(1) =~= t);
        assert(Seq::<char>::empty() =~= a);
    } else {
        lemma_split_first_of_concat(a.skip(1), t, sep);
        assert(s[0] == a[0]);
        assert(s[0] != sep);
        assert(s.skip(1) =~= a.skip(1) + seq![sep] + t);
        assert(seq![s[0]] + a.skip(1) =~= a);
    }
}

/// Splits `v` into the pieces between occurrences of `sep`.
pub fn split(v: &Vec<char>, sep: char) -> (r: Vec<Vec<char>>)
    ensures
        r.deep_view() == split_on(v@, sep),
{
    proof {
        assert(v@.skip(0) =~= v@);
    }
    split_from(v, sep, 0)
}

/// Splits the characters of `v` from position `i` on.
fn split_from(v: &Vec<char>, sep: char, i: usize) -> (r: Vec<Vec<char>>)
    requires
        i <= v@.len(),
    ensures
        r.deep_view() == split_on(v@.skip(i as int), sep),
    decreases v@.len() - i,
{
    if i == v.len() {
        proof {
            assert(v@.skip(i as int) =~= Seq::<char>::empty());
        }
        let mut r: Vec<Vec<char>> = Vec::new();
        r.push(Vec::new());
        proof {
            assert(r.deep_view() =~~= seq![Seq::<char>::empty()]);
        }
        r
    } else {
        let c = v[i];
        let rest = split_from(v, sep, i + 1);
        proof {
            assert(v@.skip(i as int)[0] == v@[i as int]);
            assert(v@.skip(i as int).skip(1) =~= v@.skip(i + 1));
            lemma_split_nonempty(v@.skip(i + 1), sep);
            assert(rest@.len() == rest.deep_view().len());
        }
        if c == sep {
            let mut r: Vec<Vec<char>> = Vec::new();
            r.push(Vec::new());
            let mut tail = rest;
            r.append(&mut tail);
            proof {
                assert(r.deep_view() =~~= seq![Seq::<char>::empty()] + split_on(
                    v@.skip(i + 1),
                    sep,
                ));
            }
            r
        } else {
            let mut tail = rest;
            let mut first: Vec<char> = Vec::new();
            first.push(c);
            let mut old_first = tail.remove(0);
            first.append(&mut old_first);
            let mut r: Vec<Vec<char>> = Vec::new();
            r.push(first);
            r.append(&mut tail);
            proof {
                let sp = split_on(v@.skip(i + 1), sep);
                assert(r.deep_view() =~~= seq![seq![v@[i as int]] + sp[0]] + sp.skip(1));
            }
            r
        }
    }
}

/// Divides `v` at its first `sep`; `None` when there is none.
pub fn divide_first(v: &Vec<char>, sep: char) -> (r: Option<(Vec<char>, Vec<char>)>)
    ensures
        match r {
            Some(p) => split_first(v@, sep) == Some((p.0@, p.1@)),
            None => split_first(v@, sep) is None,
        },
{
    let mut i: usize = 0;
    while i < v.len()
        invariant
            i <= v@.len(),
            forall|j: int| 0 <= j < i ==> v@[j] != sep,
        decreases v@.len() - i,
    {
        if v[i] == sep {
            let mut a: Vec<char> = Vec::new();
            let mut j: usize = 0;
            while j < i
                invariant
                    j <= i <= v@.len(),
                    a@ == v@.take(j as int),
                decreases i - j,
            {
                a.push(v[j]);
                j = j + 1;
                proof {
                    assert(v@.take(j as int) =~= v@.take(j - 1).push(v@[j - 1]));
                }
            }
            let mut b: Vec<char> = Vec::new();
            let mut k: usize = i + 1;
            while k < v.len()
                invariant
                    i + 1 <= k <= v@.len(),
                    b@ == v@.subrange(i + 1, k as int),
                decreases v@.len() - k,
            {
                b.push(v[k]);
                k = k + 1;
                proof {
                    assert(v@.subrange(i + 1, k as int) =~= v@.subrange(i + 1, k - 1).push(
                        v@[k - 1],
                    ));
                }
            }
            proof {
                assert(v@ =~= v@.take(i as int) + seq![v@[i as int]] + v@.subrange(
                    i + 1,
                    v@.len() as int,
                ));
                lemma_split_first_of_concat(
                    v@.take(i as int),
                    v@.subrange(i + 1, v@.len() as int),
                    sep,
                );
            }
            return Some((a, b));
        }
        i = i + 1;
    }
    proof {
        lemma_split_first_none(v@, sep);
    }
    None
}

/// A string without the separator has no first division.
proof fn lemma_split_first_none(s: Seq<char>, sep: char)
    requires
        forall|i: int| 0 <= i < s.len() ==> s[i] != sep,
    ensures
        split_first(s, sep) is None,
    decreases s.len(),
{
    if s.len() != 0 {
        lemma_split_first_none(s.skip(1), sep);
    }
}

} // verus!
