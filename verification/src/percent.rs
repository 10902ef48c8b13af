//! Percent escaping of wire-reserved characters.
//!
//! Path segments and query values travel through text that gives `/`, `&`,
//! `=` and their kin a structural meaning, so those characters are escaped
//! as `%` followed by two hexadecimal digits before a value is put on the
//! wire, and unescaped again when it is taken off.

use vstd::prelude::*;

use crate::text::{
    char_of, hex_digit, hex_digit_char, hex_val, hex_value, is_hex, is_wire_reserved,
    wire_reserved,
};

verus! {

/// The escape of a single character: itself when it is free of wire
/// meaning, `%` and two hex digits otherwise.
pub open spec fn pct_char(c: char) -> Seq<char> {
    if is_wire_reserved(c) {
        seq!['%', hex_digit(c as u32 as int / 16), hex_digit(c as u32 as int % 16)]
    } else {
        seq![c]
    }
}

/// The percent-escaped form of a string.
pub open spec fn pct_encode(s: Seq<char>) -> Seq<char>
    decreases s.len(),
{
    if s.len() == 0 {
        Seq::empty()
    } else {
        pct_char(s[0]) + pct_encode(s.skip(1))
    }
}

/// The string a percent-escaped text stands for, or `None` when a `%` is
/// not followed by two hexadecimal digits.
pub open spec fn pct_decode(s: Seq<char>) -> Option<Seq<char>>
    decreases s.len(),
{
    if s.len() == 0 {
        Some(Seq::empty())
    } else if s[0] == '%' {
        if s.len() >= 3 && is_hex(s[1]) && is_hex(s[2]) {
            match pct_decode(s.skip(3)) {
                Some(r) => Some(seq![char_of(hex_val(s[1]) * 16 + hex_val(s[2]))] + r),
                None => None,
            }
        } else {
            None
        }
    } else {
        match pct_decode(s.skip(1)) {
            Some(r) => Some(seq![s[0]] + r),
            None => None,
        }
    }
}

/// Besides the escape introducer `%` itself, no character of an escaped
/// string carries a reserved wire meaning: the separators `/`, `&`, `=` and
/// their kin never appear bare.
pub proof fn lemma_pct_encode_unreserved(s: Seq<char>)
    ensures
        forall|i: int|
            0 <= i < pct_encode(s).len() ==> (#[trigger] pct_encode(s)[i] == '%'
                || !is_wire_reserved(pct_encode(s)[i])),
    decreases s.len(),
{
    if s.len() != 0 {
        lemma_pct_encode_unreserved(s.skip(1));
        assert forall|i: int| 0 <= i < pct_encode(s).len() implies (#[trigger] pct_encode(s)[i]
            == '%' || !is_wire_reserved(pct_encode(s)[i])) by {
            let head = pct_char(s[0]);
            if i >= head.len() {
                assert(pct_encode(s)[i] == pct_encode(s.skip(1))[i - head.len()]);
            } else {
                if is_wire_reserved(s[0]) {
                    let hi = s[0] as u32 as int / 16;
                    let lo = s[0] as u32 as int % 16;
                    assert(0 <= hi < 16 && 0 <= lo < 16);
                    assert(head[1] == hex_digit(hi) && head[2] == hex_digit(lo));
                    assert(!is_wire_reserved(hex_digit(hi)));
                    assert(!is_wire_reserved(hex_digit(lo)));
                }
            }
        }
    }
}

/// Unescaping inverts escaping: the escape of any string decodes back to it.
pub proof fn lemma_pct_round_trip(s: Seq<char>)
    ensures
        pct_decode(pct_encode(s)) == Some(s),
    decreases s.len(),
{
    if s.len() == 0 {
        assert(pct_encode(s) =~= Seq::<char>::empty());
    } else {
        let c = s[0];
        let rest = s.skip(1);
        lemma_pct_round_trip(rest);
        let e = pct_encode(s);
        if is_wire_reserved(c) {
            let hi = c as u32 as int / 16;
            let lo = c as u32 as int % 16;
            assert((c as u32) < 256);
            assert(0 <= hi < 16 && 0 <= lo < 16);
            assert(e == seq!['%', hex_digit(hi), hex_digit(lo)] + pct_encode(rest));
            assert(e.len() >= 3);
            assert(e[0] == '%' && e[1] == hex_digit(hi) && e[2] == hex_digit(lo));
            assert(hex_val(e[1]) == hi && hex_val(e[2]) == lo);
            assert(e.skip(3) =~= pct_encode(rest));
            assert(hi * 16 + lo == c as u32 as int);
            assert(char_of(c as u32 as int) == c);
            assert(pct_decode(e) == Some(seq![c] + rest));
            assert(seq![c] + rest =~= s);
        } else {
            assert(e == seq![c] + pct_encode(rest));
            assert(e[0] == c && c != '%');
            assert(e.skip(1) =~= pct_encode(rest));
            assert(pct_decode(e) == Some(seq![c] + rest));
            assert(seq![c] + rest =~= s);
        }
    }
}

/// Escapes a string for the wire.
pub fn encode(v: &Vec<char>) -> (r: Vec<char>)
    ensures
        r@ == pct_encode(v@),
{
    proof {
        assert(v@.skip(0) =~= v@);
    }
    encode_from(v, 0)
}

/// Escapes the characters of `v` from position `i` on.
fn encode_from(v: &Vec<char>, i: usize) -> (r: Vec<char>)
    requires
        i <= v@.len(),
    ensures
        r@ == pct_encode(v@.skip(i as int)),
    decreases v@.len() - i,
{
    if i == v.len() {
        proof {
            assert(v@.skip(i as int) =~= Seq::<char>::empty());
        }
        Vec::new()
    } else {
        let c = v[i];
        let mut r: Vec<char> = Vec::new();
        if wire_reserved(c) {
            let code = c as u32;
            assert(code < 256) by {
                assert(is_wire_reserved(c));
            }
            r.push('%');
            r.push(hex_digit_char(code / 16));
            r.push(hex_digit_char(code % 16));
        } else {
            r.push(c);
        }
        let mut rest = encode_from(v, i + 1);
        proof {
            assert(v@.skip(i as int)[0] == v@[i as int]);
            assert(v@.skip(i as int).skip(1) =~= v@.skip(i + 1));
            assert(r@ == pct_char(v@[i as int]));
        }
        r.append(&mut rest);
        r
    }
}

/// Unescapes a wire string; `None` when an escape is malformed.
pub fn decode(v: &Vec<char>) -> (r: Option<Vec<char>>)
    ensures
        match r {
            Some(out) => pct_decode(v@) == Some(out@),
            None => pct_decode(v@) is None,
        },
{
    proof {
        assert(v@.skip(0) =~= v@);
    }
    decode_from(v, 0)
}

/// Unescapes the characters of `v` from position `i` on.
fn decode_from(v: &Vec<char>, i: usize) -> (r: Option<Vec<char>>)
    requires
        i <= v@.len(),
    ensures
        match r {
            Some(out) => pct_decode(v@.skip(i as int)) == Some(out@),
            None => pct_decode(v@.skip(i as int)) is None,
        },
    decreases v@.len() - i,
{
    if i == v.len() {
        proof {
            assert(v@.skip(i as int) =~= Seq::<char>::empty());
        }
        Some(Vec::new())
    } else {
        let c = v[i];
        proof {
            assert(v@.skip(i as int)[0] == v@[i as int]);
        }
        if c == '%' {
            if v.len() - i >= 3 {
                proof {
                    assert(v@.skip(i as int).len() >= 3);
                    assert(v@.skip(i as int)[1] == v@[i + 1]);
                    assert(v@.skip(i as int)[2] == v@[i + 2]);
                }
                let h1 = hex_value(v[i + 1]);
                let h2 = hex_value(v[i + 2]);
                match (h1, h2) {
                    (Some(a), Some(b)) => {
                        let code = a * 16 + b;
                        let byte = code as u8;
                        let ch = byte as char;
                        proof {
                            assert(code < 256);
                            assert(byte as u32 == code) by (bit_vector)
                                requires code < 256 && byte == code as u8;
                            assert(ch == char_of(code as int));
                        }
                        match decode_from(v, i + 3) {
                            Some(rest) => {
                                proof {
                                    assert(v@.skip(i as int).skip(3) =~= v@.skip(i + 3));
                                }
                                let mut r: Vec<char> = Vec::new();
                                r.push(ch);
                                let mut tail = rest;
                                r.append(&mut tail);
                                Some(r)
                            },
                            None => {
                                proof {
                                    assert(v@.skip(i as int).skip(3) =~= v@.skip(i + 3));
                                }
                                None
                            },
                        }
                    },
                    _ => None,
                }
            } else {
                proof {
                    assert(v@.skip(i as int).len() < 3);
                }
                None
            }
        } else {
            match decode_from(v, i + 1) {
                Some(rest) => {
                    proof {
                        assert(v@.skip(i as int).skip(1) =~= v@.skip(i + 1));
                    }
                    let mut r: Vec<char> = Vec::new();
                    r.push(c);
                    let mut tail = rest;
                    r.append(&mut tail);
                    Some(r)
                },
                None => {
                    proof {
                        assert(v@.skip(i as int).skip(1) =~= v@.skip(i + 1));
                    }
                    None
                },
            }
        }
    }
}

} // verus!
