//! The executable JSON parser, proved to compute exactly what
//! [`crate::json::parse_value`] and its companions specify.

use vstd::prelude::*;
use crate::json::{
    Json, JsonV, json_view, json_views, member_views, hex_val, char_of, is_ws, is_digit, skip_ws,
    scan_digits, parse_escape, parse_string_body, parse_string, parse_number, parse_exp,
    parse_lit, parse_value, parse_items, parse_members, parse_json,
};
use crate::json_props::{
    lemma_char_of, lemma_parse_escape_bounds, lemma_parse_string_body_bounds,
    lemma_parse_string_bounds, lemma_parse_number_bounds, lemma_parse_value_bounds,
    lemma_parse_items_bounds, lemma_parse_members_bounds, lemma_scan_digits_bounds,
};
use crate::json_write::{lemma_json_views, lemma_member_views};
use crate::strutil::{string_to_chars, chars_to_string};

verus! {

/// Whether `c` is JSON whitespace.
fn is_ws_char(c: char) -> (r: bool)
    ensures
        r == is_ws(c),
{
    c == ' ' || c == '\n' || c == '\r' || c == '\t'
}

/// Whether `c` is a decimal digit.
fn is_digit_char(c: char) -> (r: bool)
    ensures
        r == is_digit(c),
{
    let n = c as u32;
    48 <= n && n <= 57
}

/// Skip whitespace from `pos` on.
fn p_skip_ws(s: &Vec<char>, pos: usize) -> (r: usize)
    requires
        pos <= s@.len(),
    ensures
        r as int == skip_ws(s@, pos as int),
        pos <= r <= s@.len(),
    decreases s@.len() - pos,
{
    let n = s.len();
    let mut i: usize = pos;
    while i < n && is_ws_char(s[i])
        invariant
            pos <= i <= n,
            n == s@.len(),
            skip_ws(s@, pos as int) == skip_ws(s@, i as int),
        decreases n - i,
    {
        i += 1;
    }
    proof {
        assert(skip_ws(s@, i as int) == i as int);
    }
    i
}

/// Scan decimal digits from `pos` on.
fn p_scan_digits(s: &Vec<char>, pos: usize) -> (r: usize)
    requires
        pos <= s@.len(),
    ensures
        r as int == scan_digits(s@, pos as int),
        pos <= r <= s@.len(),
{
    let n = s.len();
    let mut i: usize = pos;
    while i < n && is_digit_char(s[i])
        invariant
            pos <= i <= n,
            n == s@.len(),
            scan_digits(s@, pos as int) == scan_digits(s@, i as int),
        decreases n - i,
    {
        i += 1;
    }
    proof {
        assert(scan_digits(s@, i as int) == i as int);
    }
    i
}

/// The value of a hex digit, or 255 for any other character.
fn hex_val_of(c: char) -> (r: u8)
    ensures
        hex_val(c) >= 0 ==> r as int == hex_val(c),
        hex_val(c) < 0 ==> r == 255,
{
    let n = c as u32;
    if 48 <= n && n <= 57 {
        (n - 48) as u8
    } else if 97 <= n && n <= 102 {
        (n - 87) as u8
    } else if 65 <= n && n <= 70 {
        (n - 55) as u8
    } else {
        255
    }
}

/// Relies on `char::from_u32`: it returns the character with the given
/// code point, and succeeds exactly on code points that are at most
/// 0x10FFFF and are not surrogates.
#[verifier::external_body]
fn char_from_code(n: u32) -> (r: Option<char>)
    ensures
        r matches Some(c) ==> c as u32 == n,
        (r is Some) <==> (n < 0xD800 || (0xE000 <= n && n <= 0x10FFFF)),
{
    char::from_u32(n)
}

/// The characters of `s` from `a` (inclusive) to `b` (exclusive), as a
/// string.
fn copy_range(s: &Vec<char>, a: usize, b: usize) -> (r: String)
    requires
        a <= b <= s@.len(),
    ensures
        r@ == s@.subrange(a as int, b as int),
{
    let mut v: Vec<char> = Vec::new();
    let mut i: usize = a;
    while i < b
        invariant
            a <= i <= b,
            b <= s@.len(),
            v@ == s@.subrange(a as int, i as int),
        decreases b - i,
    {
        v.push(s[i]);
        assert(v@ =~= s@.subrange(a as int, i + 1));
        i += 1;
    }
    chars_to_string(&v)
}

/// Read the escape sequence at `pos`.
fn p_escape(s: &Vec<char>, pos: usize) -> (r: (Option<char>, usize))
    requires
        pos <= s@.len(),
    ensures
        r.1 as int == parse_escape(s@, pos as int).1,
        r.0 == parse_escape(s@, pos as int).0,
        pos <= r.1 <= s@.len(),
    decreases s@.len() - pos,
{
    proof {
        lemma_parse_escape_bounds(s@, pos as int);
    }
    let n = s.len();
    if !(pos < n && n - pos > 1 && s[pos] == '\\') {
        return (None, pos);
    }
    let e = s[pos + 1];
    if e == '"' {
        (Some('"'), pos + 2)
    } else if e == '\\' {
        (Some('\\'), pos + 2)
    } else if e == '/' {
        (Some('/'), pos + 2)
    } else if e == 'n' {
        (Some('\n'), pos + 2)
    } else if e == 'r' {
        (Some('\r'), pos + 2)
    } else if e == 't' {
        (Some('\t'), pos + 2)
    } else if e == 'b' {
        (Some('\u{0008}'), pos + 2)
    } else if e == 'f' {
        (Some('\u{000C}'), pos + 2)
    } else if e == 'u' {
        if n - pos > 5 {
            let h1 = hex_val_of(s[pos + 2]);
            let h2 = hex_val_of(s[pos + 3]);
            let h3 = hex_val_of(s[pos + 4]);
            let h4 = hex_val_of(s[pos + 5]);
            if h1 == 255 || h2 == 255 || h3 == 255 || h4 == 255 {
                return (None, pos);
            }
            let code: u32 = (h1 as u32) * 4096 + (h2 as u32) * 256 + (h3 as u32) * 16 + (
            h4 as u32);
            if 0xD800 <= code && code < 0xE000 {
                (None, pos)
            } else {
                match char_from_code(code) {
                    Some(c) => {
                        proof {
                            lemma_char_of(c);
                        }
                        (Some(c), pos + 6)
                    },
                    None => {
                        proof {
                            assert(false);
                        }
                        (None, pos)
                    },
                }
            }
        } else {
            (None, pos)
        }
    } else {
        (None, pos)
    }
}

/// Read a string body from just after the opening quote through the
/// closing quote.
fn p_string_body(s: &Vec<char>, pos: usize) -> (r: (Option<Vec<char>>, usize))
    requires
        pos <= s@.len(),
    ensures
        r.1 as int == parse_string_body(s@, pos as int).1,
        pos <= r.1 <= s@.len(),
        (match r.0 {
            Some(v) => parse_string_body(s@, pos as int).0 == Some(v@),
            None => parse_string_body(s@, pos as int).0 is None,
        }),
    decreases s@.len() - pos,
{
    proof {
        lemma_parse_string_body_bounds(s@, pos as int);
    }
    let n = s.len();
    if pos >= n {
        return (None, pos);
    }
    let c = s[pos];
    if c == '"' {
        let v: Vec<char> = Vec::new();
        proof {
            assert(v@ =~= Seq::<char>::empty());
        }
        (Some(v), pos + 1)
    } else if c == '\\' {
        let (e, p1) = p_escape(s, pos);
        match e {
            Some(ch) => {
                proof {
                    lemma_parse_escape_bounds(s@, pos as int);
                }
                let (rest, p2) = p_string_body(s, p1);
                match rest {
                    Some(mut v) => {
                        let ghost before = v@;
                        v.insert(0, ch);
                        proof {
                            assert(v@ =~= seq![ch] + before);
                        }
                        (Some(v), p2)
                    },
                    None => (None, p2),
                }
            },
            None => (None, pos),
        }
    } else {
        let (rest, p2) = p_string_body(s, pos + 1);
        match rest {
            Some(mut v) => {
                let ghost before = v@;
                v.insert(0, c);
                proof {
                    assert(v@ =~= seq![c] + before);
                }
                (Some(v), p2)
            },
            None => (None, p2),
        }
    }
}

/// Read a complete string literal at `pos`.
fn p_string(s: &Vec<char>, pos: usize) -> (r: (Option<Vec<char>>, usize))
    requires
        pos <= s@.len(),
    ensures
        r.1 as int == parse_string(s@, pos as int).1,
        pos <= r.1 <= s@.len(),
        (match r.0 {
            Some(v) => parse_string(s@, pos as int).0 == Some(v@),
            None => parse_string(s@, pos as int).0 is None,
        }),
{
    let n = s.len();
    if pos < n && s[pos] == '"' {
        p_string_body(s, pos + 1)
    } else {
        (None, pos)
    }
}

/// Read a number lexeme at `pos`.
fn p_number(s: &Vec<char>, pos: usize) -> (r: (Option<Json>, usize))
    requires
        pos <= s@.len(),
    ensures
        r.1 as int == parse_number(s@, pos as int).1,
        pos <= r.1 <= s@.len(),
        (match r.0 {
            Some(j) => parse_number(s@, pos as int).0 == Some(json_view(j)),
            None => parse_number(s@, pos as int).0 is None,
        }),
{
    proof {
        lemma_parse_number_bounds(s@, pos as int);
    }
    let n = s.len();
    if pos >= n {
        return (None, pos);
    }
    let p1 = if s[pos] == '-' {
        pos + 1
    } else {
        pos
    };
    if !(p1 < n && is_digit_char(s[p1])) {
        return (None, pos);
    }
    let p2 = if s[p1] == '0' {
        p1 + 1
    } else {
        p_scan_digits(s, p1)
    };
    if p2 < n && s[p2] == '.' {
        let p3 = p_scan_digits(s, p2 + 1);
        if p3 == p2 + 1 {
            return (None, pos);
        }
        p_exp(s, pos, p3)
    } else {
        p_exp(s, pos, p2)
    }
}

/// Read the optional exponent part and finish the lexeme begun at `start`.
fn p_exp(s: &Vec<char>, start: usize, p: usize) -> (r: (Option<Json>, usize))
    requires
        start < p <= s@.len(),
    ensures
        r.1 as int == parse_exp(s@, start as int, p as int).1,
        start <= r.1 <= s@.len(),
        (match r.0 {
            Some(j) => parse_exp(s@, start as int, p as int).0 == Some(json_view(j)),
            None => parse_exp(s@, start as int, p as int).0 is None,
        }),
{
    let n = s.len();
    if p < n && (s[p] == 'e' || s[p] == 'E') {
        let q = if p + 1 < n && (s[p + 1] == '+' || s[p + 1] == '-') {
            p + 2
        } else {
            p + 1
        };
        let rr = p_scan_digits(s, q);
        if rr == q {
            (None, start)
        } else {
            let lex = copy_range(s, start, rr);
            (Some(Json::Num(lex)), rr)
        }
    } else {
        let lex = copy_range(s, start, p);
        (Some(Json::Num(lex)), p)
    }
}

/// Whether the four given characters stand at `pos`.
fn p_lit4(s: &Vec<char>, pos: usize, c0: char, c1: char, c2: char, c3: char) -> (r: bool)
    requires
        pos <= s@.len(),
    ensures
        r == (pos + 4 <= s@.len() && s@.subrange(pos as int, pos as int + 4) == seq![c0, c1, c2, c3]),
{
    let n = s.len();
    if n - pos >= 4 && s[pos] == c0 && s[pos + 1] == c1 && s[pos + 2] == c2 && s[pos + 3] == c3 {
        proof {
            assert(s@.subrange(pos as int, pos as int + 4) =~= seq![c0, c1, c2, c3]);
        }
        true
    } else {
        proof {
            if pos + 4 <= s@.len() {
                let sub = s@.subrange(pos as int, pos as int + 4);
                if sub == seq![c0, c1, c2, c3] {
                    assert(s@[pos as int] == sub[0] && s@[pos as int + 1] == sub[1] && s@[pos as int
                        + 2] == sub[2] && s@[pos as int + 3] == sub[3]);
                    assert(sub[0] == c0 && sub[1] == c1 && sub[2] == c2 && sub[3] == c3);
                }
            }
        }
        false
    }
}

/// Whether the five given characters stand at `pos`.
fn p_lit5(s: &Vec<char>, pos: usize, c0: char, c1: char, c2: char, c3: char, c4: char) -> (r: bool)
    requires
        pos <= s@.len(),
    ensures
        r == (pos + 5 <= s@.len() && s@.subrange(pos as int, pos as int + 5) == seq![c0, c1, c2, c3, c4]),
{
    let n = s.len();
    if n - pos >= 5 && s[pos] == c0 && s[pos + 1] == c1 && s[pos + 2] == c2 && s[pos + 3] == c3
        && s[pos + 4] == c4 {
        proof {
            assert(s@.subrange(pos as int, pos as int + 5) =~= seq![c0, c1, c2, c3, c4]);
        }
        true
    } else {
        proof {
            if pos + 5 <= s@.len() {
                let sub = s@.subrange(pos as int, pos as int + 5);
                if sub == seq![c0, c1, c2, c3, c4] {
                    assert(s@[pos as int] == sub[0] && s@[pos as int + 1] == sub[1] && s@[pos as int
                        + 2] == sub[2] && s@[pos as int + 3] == sub[3] && s@[pos as int + 4]
                        == sub[4]);
                    assert(sub[0] == c0 && sub[1] == c1 && sub[2] == c2 && sub[3] == c3 && sub[4]
                        == c4);
                }
            }
        }
        false
    }
}

/// Read the JSON value starting exactly at `pos`.
pub fn p_value(s: &Vec<char>, pos: usize) -> (r: (Option<Json>, usize))
    requires
        pos <= s@.len(),
    ensures
        r.1 as int == parse_value(s@, pos as int).1,
        pos <= r.1 <= s@.len(),
        (match r.0 {
            Some(j) => parse_value(s@, pos as int).0 == Some(json_view(j)),
            None => parse_value(s@, pos as int).0 is None,
        }),
    decreases s@.len() - pos, 1int,
{
    proof {
        lemma_parse_value_bounds(s@, pos as int);
    }
    let n = s.len();
    if pos >= n {
        return (None, pos);
    }
    let c = s[pos];
    if c == 'n' {
        if p_lit4(s, pos, 'n', 'u', 'l', 'l') {
            (Some(Json::Null), pos + 4)
        } else {
            (None, pos)
        }
    } else if c == 't' {
        if p_lit4(s, pos, 't', 'r', 'u', 'e') {
            (Some(Json::Bool(true)), pos + 4)
        } else {
            (None, pos)
        }
    } else if c == 'f' {
        if p_lit5(s, pos, 'f', 'a', 'l', 's', 'e') {
            (Some(Json::Bool(false)), pos + 5)
        } else {
            (None, pos)
        }
    } else if c == '"' {
        let (t, p) = p_string(s, pos);
        match t {
            Some(v) => (Some(Json::Str(chars_to_string(&v))), p),
            None => (None, pos),
        }
    } else if c == '[' {
        let p1 = p_skip_ws(s, pos + 1);
        if p1 < n && s[p1] == ']' {
            let v: Vec<Json> = Vec::new();
            proof {
                lemma_json_views(v@);
                assert(json_views(v@) =~= Seq::<JsonV>::empty());
            }
            (Some(Json::Arr(v)), p1 + 1)
        } else {
            let (items, p) = p_items(s, p1);
            match items {
                Some(v) => (Some(Json::Arr(v)), p),
                None => (None, p),
            }
        }
    } else if c == '{' {
        let p1 = p_skip_ws(s, pos + 1);
        if p1 < n && s[p1] == '}' {
            let v: Vec<(String, Json)> = Vec::new();
            proof {
                lemma_member_views(v@);
                assert(member_views(v@) =~= Seq::<(Seq<char>, JsonV)>::empty());
            }
            (Some(Json::Obj(v)), p1 + 1)
        } else {
            let (members, p) = p_members(s, p1);
            match members {
                Some(v) => (Some(Json::Obj(v)), p),
                None => (None, p),
            }
        }
    } else if c == '-' || is_digit_char(c) {
        p_number(s, pos)
    } else {
        (None, pos)
    }
}

/// Read the items of a non-empty array through the closing bracket.
fn p_items(s: &Vec<char>, pos: usize) -> (r: (Option<Vec<Json>>, usize))
    requires
        pos <= s@.len(),
    ensures
        r.1 as int == parse_items(s@, pos as int).1,
        pos <= r.1 <= s@.len(),
        (match r.0 {
            Some(v) => parse_items(s@, pos as int).0 == Some(json_views(v@)),
            None => parse_items(s@, pos as int).0 is None,
        }),
    decreases s@.len() - pos, 2int,
{
    proof {
        lemma_parse_items_bounds(s@, pos as int);
    }
    let n = s.len();
    if pos >= n {
        return (None, pos);
    }
    let (v0, p) = p_value(s, pos);
    match v0 {
        Some(j) => {
            let p2 = p_skip_ws(s, p);
            if p2 >= n {
                return (None, pos);
            }
            if s[p2] == ']' {
                let mut v: Vec<Json> = Vec::new();
                v.push(j);
                proof {
                    lemma_json_views(v@);
                    assert(json_views(v@) =~= seq![json_view(j)]);
                }
                (Some(v), p2 + 1)
            } else if s[p2] == ',' {
                let p3 = p_skip_ws(s, p2 + 1);
                let (rest, p4) = p_items(s, p3);
                match rest {
                    Some(mut v) => {
                        let ghost before = v@;
                        v.insert(0, j);
                        proof {
                            assert(v@ =~= seq![j] + before);
                            lemma_json_views(v@);
                            lemma_json_views(before);
                            let rhs = seq![json_view(j)] + json_views(before);
                            assert forall|i: int| 0 <= i < json_views(v@).len() implies
                                json_views(v@)[i] == rhs[i] by {
                                if i == 0 {
                                    assert(v@[0] == j);
                                } else {
                                    assert(v@[i] == before[i - 1]);
                                    assert(rhs[i] == json_views(before)[i - 1]);
                                }
                            }
                            assert(json_views(v@) =~= rhs);
                        }
                        (Some(v), p4)
                    },
                    None => (None, p4),
                }
            } else {
                (None, p2)
            }
        },
        None => (None, p),
    }
}

/// Read the members of a non-empty object through the closing brace.
fn p_members(s: &Vec<char>, pos: usize) -> (r: (Option<Vec<(String, Json)>>, usize))
    requires
        pos <= s@.len(),
    ensures
        r.1 as int == parse_members(s@, pos as int).1,
        pos <= r.1 <= s@.len(),
        (match r.0 {
            Some(v) => parse_members(s@, pos as int).0 == Some(member_views(v@)),
            None => parse_members(s@, pos as int).0 is None,
        }),
    decreases s@.len() - pos, 2int,
{
    proof {
        lemma_parse_members_bounds(s@, pos as int);
    }
    let n = s.len();
    if pos >= n {
        return (None, pos);
    }
    let (k0, p) = p_string(s, pos);
    match k0 {
        Some(kv) => {
            let p1 = p_skip_ws(s, p);
            if !(p1 < n && s[p1] == ':') {
                return (None, pos);
            }
            let p2 = p_skip_ws(s, p1 + 1);
            let (v0, p3) = p_value(s, p2);
            match v0 {
                Some(j) => {
                    let p4 = p_skip_ws(s, p3);
                    if p4 >= n {
                        return (None, pos);
                    }
                    let key = chars_to_string(&kv);
                    if s[p4] == '}' {
                        let mut v: Vec<(String, Json)> = Vec::new();
                        v.push((key, j));
                        proof {
                            lemma_member_views(v@);
                            assert(member_views(v@) =~= seq![(kv@, json_view(j))]);
                        }
                        (Some(v), p4 + 1)
                    } else if s[p4] == ',' {
                        let p5 = p_skip_ws(s, p4 + 1);
                        let (rest, p6) = p_members(s, p5);
                        match rest {
                            Some(mut v) => {
                                let ghost before = v@;
                                v.insert(0, (key, j));
                                proof {
                                    assert(v@ =~= seq![(key, j)] + before);
                                    lemma_member_views(v@);
                                    lemma_member_views(before);
                                    let rhs = seq![(kv@, json_view(j))] + member_views(before);
                                    assert forall|i: int| 0 <= i < member_views(v@).len() implies
                                        member_views(v@)[i] == rhs[i] by {
                                        if i == 0 {
                                            assert(v@[0] == (key, j));
                                        } else {
                                            assert(v@[i] == before[i - 1]);
                                            assert(rhs[i] == member_views(before)[i - 1]);
                                        }
                                    }
                                    assert(member_views(v@) =~= rhs);
                                }
                                (Some(v), p6)
                            },
                            None => (None, p6),
                        }
                    } else {
                        (None, p4)
                    }
                },
                None => (None, p3),
            }
        },
        None => (None, pos),
    }
}

/// Parse a complete JSON document: one value, optionally surrounded by
/// whitespace.
pub fn parse_json_text(s: &str) -> (r: Option<Json>)
    ensures
        (match r {
            Some(j) => parse_json(s@) == Some(json_view(j)),
            None => parse_json(s@) is None,
        }),
{
    let cs = string_to_chars(s);
    let p0 = p_skip_ws(&cs, 0);
    let (v, p) = p_value(&cs, p0);
    match v {
        Some(j) => {
            let p1 = p_skip_ws(&cs, p);
            if p1 == cs.len() {
                Some(j)
            } else {
                None
            }
        },
        None => None,
    }
}

} // verus!
