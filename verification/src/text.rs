//! Character and string utilities shared by the wire codecs.

use vstd::prelude::*;

verus! {

/// Characters with a reserved meaning somewhere on the wire: the path
/// segment separator, the escape introducer, the query separators, and the
/// characters that end the path or start a fragment. Values are
/// percent-escaped so that none of these ever appears bare inside an
/// encoded path segment or query value.
pub open spec fn is_wire_reserved(c: char) -> bool {
    c == '/' || c == '%' || c == '&' || c == '=' || c == '?' || c == '#' || c == ' ' || c == '+'
}

/// Executable mirror of [`is_wire_reserved`].
pub fn wire_reserved(c: char) -> (r: bool)
    ensures
        r == is_wire_reserved(c),
{
    c == '/' || c == '%' || c == '&' || c == '=' || c == '?' || c == '#' || c == ' ' || c == '+'
}

/// A plain name: the characters a field identifier may use.
pub open spec fn is_name_char(c: char) -> bool {
    ('a' <= c && c <= 'z') || ('A' <= c && c <= 'Z') || ('0' <= c && c <= '9') || c == '_'
}

/// A field name as the front end delivers it: a Rust identifier, so it is
/// nonempty and made of letters, digits and underscores.
pub open spec fn is_plain_name(s: Seq<char>) -> bool {
    s.len() > 0 && forall|i: int| 0 <= i < s.len() ==> is_name_char(#[trigger] s[i])
}

/// The value of a hexadecimal digit, or -1 when the character is none.
pub open spec fn hex_val(c: char) -> int {
    if c == '0' { 0 } else if c == '1' { 1 } else if c == '2' { 2 } else if c == '3' { 3 }
    else if c == '4' { 4 } else if c == '5' { 5 } else if c == '6' { 6 } else if c == '7' { 7 }
    else if c == '8' { 8 } else if c == '9' { 9 }
    else if c == 'a' || c == 'A' { 10 } else if c == 'b' || c == 'B' { 11 }
    else if c == 'c' || c == 'C' { 12 } else if c == 'd' || c == 'D' { 13 }
    else if c == 'e' || c == 'E' { 14 } else if c == 'f' || c == 'F' { 15 }
    else { -1 }
}

pub open spec fn is_hex(c: char) -> bool {
    hex_val(c) >= 0
}

/// The lower-case hexadecimal digit for a value below sixteen.
pub open spec fn hex_digit(n: int) -> char {
    if n == 0 { '0' } else if n == 1 { '1' } else if n == 2 { '2' } else if n == 3 { '3' }
    else if n == 4 { '4' } else if n == 5 { '5' } else if n == 6 { '6' } else if n == 7 { '7' }
    else if n == 8 { '8' } else if n == 9 { '9' } else if n == 10 { 'a' } else if n == 11 { 'b' }
    else if n == 12 { 'c' } else if n == 13 { 'd' } else if n == 14 { 'e' } else { 'f' }
}

pub proof fn lemma_hex_digit_inverts(n: int)
    requires
        0 <= n < 16,
    ensures
        hex_val(hex_digit(n)) == n,
        is_hex(hex_digit(n)),
{
}

/// Executable mirror of [`hex_digit`].
pub fn hex_digit_char(n: u32) -> (r: char)
    requires
        n < 16,
    ensures
        r == hex_digit(n as int),
{
    if n == 0 { '0' } else if n == 1 { '1' } else if n == 2 { '2' } else if n == 3 { '3' }
    else if n == 4 { '4' } else if n == 5 { '5' } else if n == 6 { '6' } else if n == 7 { '7' }
    else if n == 8 { '8' } else if n == 9 { '9' } else if n == 10 { 'a' } else if n == 11 { 'b' }
    else if n == 12 { 'c' } else if n == 13 { 'd' } else if n == 14 { 'e' } else { 'f' }
}

/// Executable mirror of [`hex_val`], as an `Option`.
pub fn hex_value(c: char) -> (r: Option<u32>)
    ensures
        match r {
            Some(v) => hex_val(c) == v as int && v < 16,
            None => hex_val(c) == -1,
        },
{
    if c == '0' { Some(0) } else if c == '1' { Some(1) } else if c == '2' { Some(2) }
    else if c == '3' { Some(3) } else if c == '4' { Some(4) } else if c == '5' { Some(5) }
    else if c == '6' { Some(6) } else if c == '7' { Some(7) } else if c == '8' { Some(8) }
    else if c == '9' { Some(9) } else if c == 'a' || c == 'A' { Some(10) }
    else if c == 'b' || c == 'B' { Some(11) } else if c == 'c' || c == 'C' { Some(12) }
    else if c == 'd' || c == 'D' { Some(13) } else if c == 'e' || c == 'E' { Some(14) }
    else if c == 'f' || c == 'F' { Some(15) } else { None }
}

/// Relies on std's `String::push`: appends the given character to the end of
/// the string.
#[verifier::external_body]
pub fn push_char(s: &mut String, c: char)
    ensures
        final(s)@ == old(s)@.push(c),
{
    s.push(c)
}

/// Collects the characters of a string slice into a vector.
pub fn str_chars(s: &str) -> (r: Vec<char>)
    ensures
        r@ == s@,
{
    let n = s.unicode_len();
    let mut r: Vec<char> = Vec::new();
    let mut i: usize = 0;
    while i < n
        invariant
            n == s@.len(),
            i <= n,
            r@ == s@.take(i as int),
        decreases n - i,
    {
        r.push(s.get_char(i));
        i = i + 1;
        proof {
            assert(s@.take(i as int) =~= s@.take(i - 1).push(s@[i - 1]));
        }
    }
    proof {
        assert(s@.take(n as int) =~= s@);
    }
    r
}

/// Builds a string from a vector of characters.
pub fn string_of_chars(v: &Vec<char>) -> (r: String)
    ensures
        r@ == v@,
{
    let mut r = String::new();
    let mut i: usize = 0;
    while i < v.len()
        invariant
            i <= v@.len(),
            r@ == v@.take(i as int),
        decreases v@.len() - i,
    {
        push_char(&mut r, v[i]);
        i = i + 1;
        proof {
            assert(v@.take(i as int) =~= v@.take(i - 1).push(v@[i - 1]));
        }
    }
    proof {
        assert(v@.take(v@.len() as int) =~= v@);
    }
    r
}

/// Whether two string slices hold the same characters.
pub fn str_eq(a: &str, b: &str) -> (r: bool)
    ensures
        r == (a@ == b@),
{
    let na = a.unicode_len();
    let nb = b.unicode_len();
    if na != nb {
        proof {
            assert(a@ != b@) by {
                if a@ == b@ {
                    assert(a@.len() == b@.len());
                }
            }
        }
        return false;
    }
    let mut i: usize = 0;
    while i < na
        invariant
            na == a@.len(),
            na == b@.len(),
            i <= na,
            forall|j: int| 0 <= j < i ==> a@[j] == b@[j],
        decreases na - i,
    {
        if a.get_char(i) != b.get_char(i) {
            return false;
        }
        i = i + 1;
    }
    proof {
        assert(a@ =~= b@);
    }
    true
}

/// Whether a string is a plain identifier-shaped name.
pub fn check_plain_name(s: &str) -> (r: bool)
    ensures
        r == is_plain_name(s@),
{
    let n = s.unicode_len();
    if n == 0 {
        return false;
    }
    let mut i: usize = 0;
    while i < n
        invariant
            n == s@.len(),
            i <= n,
            forall|j: int| 0 <= j < i ==> is_name_char(#[trigger] s@[j]),
        decreases n - i,
    {
        let c = s.get_char(i);
        if !(('a' <= c && c <= 'z') || ('A' <= c && c <= 'Z') || ('0' <= c && c <= '9')
            || c == '_') {
            return false;
        }
        i = i + 1;
    }
    true
}

/// Whether a character vector holds the same characters as a string slice.
pub fn chars_eq_str(v: &Vec<char>, s: &str) -> (r: bool)
    ensures
        r == (v@ == s@),
{
    let n = s.unicode_len();
    if v.len() != n {
        proof {
            assert(v@ != s@) by {
                if v@ == s@ {
                    assert(v@.len() == s@.len());
                }
            }
        }
        return false;
    }
    let mut i: usize = 0;
    while i < n
        invariant
            n == s@.len(),
            n == v@.len(),
            i <= n,
            forall|j: int| 0 <= j < i ==> v@[j] == s@[j],
        decreases n - i,
    {
        if v[i] != s.get_char(i) {
            return false;
        }
        i = i + 1;
    }
    proof {
        assert(v@ =~= s@);
    }
    true
}

/// The character whose code is the given value; meaningful only for valid
/// scalar values, which is all the codec ever forms.
pub open spec fn char_of(n: int) -> char {
    n as char
}

} // verus!
