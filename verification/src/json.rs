//! The JSON document syntax, at the specification level.
//!
//! The store persists every document as JSON text. This module defines the
//! in-memory JSON value, its mathematical model, and two specification-level
//! functions over that model: [`ser_json`], the exact text a value
//! serializes to, and [`parse_value`], the exact result of parsing text.
//! The executable serializer and parser elsewhere in the crate are proved to
//! compute these functions, and the round-trip law is proved about them.
//!
//! The parser is tolerant, as a store that must survive hand-edited files
//! has to be: it skips whitespace between tokens, accepts every standard
//! escape in strings (including `\uXXXX` for codepoints outside the
//! surrogate range), accepts unescaped control characters in strings, and
//! keeps a number as its raw lexeme rather than a float.

use vstd::prelude::*;

verus! {

broadcast use vstd::std_specs::vec::group_vec_axioms;

/// An in-memory JSON value. A number is kept as its raw lexeme: the store
/// itself never writes numbers, and a number read from a foreign file is
/// only ever displayed, never computed with.
#[derive(Debug)]
pub enum Json {
    Null,
    Bool(bool),
    Num(String),
    Str(String),
    Arr(Vec<Json>),
    Obj(Vec<(String, Json)>),
}

/// The mathematical value of a [`Json`] document.
#[verifier::ext_equal]
pub enum JsonV {
    Null,
    Bool(bool),
    Num(Seq<char>),
    Str(Seq<char>),
    Arr(Seq<JsonV>),
    Obj(Seq<(Seq<char>, JsonV)>),
}

/// The mathematical value of a [`Json`] document.
pub open spec fn json_view(j: Json) -> JsonV
    decreases j, 1int,
{
    match j {
        Json::Null => JsonV::Null,
        Json::Bool(b) => JsonV::Bool(b),
        Json::Num(s) => JsonV::Num(s@),
        Json::Str(s) => JsonV::Str(s@),
        Json::Arr(items) => JsonV::Arr(json_views(items@)),
        Json::Obj(members) => JsonV::Obj(member_views(members@)),
    }
}

/// The mathematical values of a sequence of [`Json`] documents, in order.
pub open spec fn json_views(items: Seq<Json>) -> Seq<JsonV>
    decreases items, 0int,
{
    if items.len() == 0 {
        Seq::empty()
    } else {
        seq![json_view(items[0])] + json_views(items.drop_first())
    }
}

/// The mathematical values of a sequence of object members, in order.
pub open spec fn member_views(members: Seq<(String, Json)>) -> Seq<(Seq<char>, JsonV)>
    decreases members, 0int,
{
    if members.len() == 0 {
        Seq::empty()
    } else {
        seq![(members[0].0@, json_view(members[0].1))] + member_views(members.drop_first())
    }
}

impl DeepView for Json {
    type V = JsonV;

    open spec fn deep_view(&self) -> JsonV {
        json_view(*self)
    }
}

/// The serializer never writes numbers; everything else round-trips.
pub open spec fn wf_json(j: JsonV) -> bool
    decreases j,
{
    match j {
        JsonV::Null => true,
        JsonV::Bool(_) => true,
        JsonV::Num(_) => false,
        JsonV::Str(_) => true,
        JsonV::Arr(items) => forall|i: int| 0 <= i < items.len() ==> wf_json(#[trigger] items[i]),
        JsonV::Obj(members) => forall|i: int|
            0 <= i < members.len() ==> wf_json(#[trigger] members[i].1),
    }
}

/// The lowercase hex digit with value `n`.
pub open spec fn hex_digit(n: int) -> char {
    if n < 10 {
        ((48 + n) as u8) as char
    } else {
        ((87 + n) as u8) as char
    }
}

/// The value of a hex digit, or -1 for any other character.
pub open spec fn hex_val(c: char) -> int {
    let n = c as int;
    if 48 <= n <= 57 {
        n - 48
    } else if 97 <= n <= 102 {
        n - 87
    } else if 65 <= n <= 70 {
        n - 55
    } else {
        -1
    }
}

/// The character with code point `n`.
pub open spec fn char_of(n: u32) -> char {
    choose|c: char| (#[trigger] (c as u32)) == n
}

/// How one character of a string is written: the two-character escapes for
/// quote, backslash and the common control characters, a `\u00XX` escape
/// for the remaining control characters, and the character itself otherwise.
pub open spec fn esc_char(c: char) -> Seq<char> {
    if c == '"' {
        seq!['\\', '"']
    } else if c == '\\' {
        seq!['\\', '\\']
    } else if c == '\n' {
        seq!['\\', 'n']
    } else if c == '\r' {
        seq!['\\', 'r']
    } else if c == '\t' {
        seq!['\\', 't']
    } else if (c as u32) < 32 {
        seq!['\\', 'u', '0', '0', hex_digit(c as u32 as int / 16), hex_digit(c as u32 as int % 16)]
    } else {
        seq![c]
    }
}

/// The body of a serialized string: each character escaped as needed.
pub open spec fn ser_string_body(s: Seq<char>) -> Seq<char>
    decreases s.len(),
{
    if s.len() == 0 {
        Seq::empty()
    } else {
        esc_char(s[0]) + ser_string_body(s.drop_first())
    }
}

/// A serialized string: the escaped body between quotes.
pub open spec fn ser_string(s: Seq<char>) -> Seq<char> {
    seq!['"'] + ser_string_body(s) + seq!['"']
}

/// The exact text a JSON value serializes to: no whitespace, members and
/// items in order, strings escaped by [`esc_char`], a number as its lexeme.
pub open spec fn ser_json(j: JsonV) -> Seq<char>
    decreases j, 1int,
{
    match j {
        JsonV::Null => seq!['n', 'u', 'l', 'l'],
        JsonV::Bool(b) => if b {
            seq!['t', 'r', 'u', 'e']
        } else {
            seq!['f', 'a', 'l', 's', 'e']
        },
        JsonV::Num(s) => s,
        JsonV::Str(s) => ser_string(s),
        JsonV::Arr(items) => seq!['['] + ser_items(items) + seq![']'],
        JsonV::Obj(members) => seq!['{'] + ser_members(members) + seq!['}'],
    }
}

/// The comma-separated serialization of array items.
pub open spec fn ser_items(items: Seq<JsonV>) -> Seq<char>
    decreases items, 0int,
{
    if items.len() == 0 {
        Seq::empty()
    } else if items.len() == 1 {
        ser_json(items[0])
    } else {
        ser_json(items[0]) + seq![','] + ser_items(items.drop_first())
    }
}

/// The comma-separated serialization of object members.
pub open spec fn ser_members(members: Seq<(Seq<char>, JsonV)>) -> Seq<char>
    decreases members, 0int,
{
    if members.len() == 0 {
        Seq::empty()
    } else if members.len() == 1 {
        ser_string(members[0].0) + seq![':'] + ser_json(members[0].1)
    } else {
        ser_string(members[0].0) + seq![':'] + ser_json(members[0].1) + seq![','] + ser_members(
            members.drop_first(),
        )
    }
}

/// A character JSON treats as insignificant whitespace between tokens.
pub open spec fn is_ws(c: char) -> bool {
    c == ' ' || c == '\n' || c == '\r' || c == '\t'
}

/// The first position at or after `pos` holding a non-whitespace character.
pub open spec fn skip_ws(s: Seq<char>, pos: int) -> int
    decreases s.len() - pos,
{
    if 0 <= pos < s.len() && is_ws(s[pos]) {
        skip_ws(s, pos + 1)
    } else {
        pos
    }
}

/// A decimal digit.
pub open spec fn is_digit(c: char) -> bool {
    48 <= c as int <= 57
}

/// The end of the run of decimal digits starting at `pos`.
pub open spec fn scan_digits(s: Seq<char>, pos: int) -> int
    decreases s.len() - pos,
{
    if 0 <= pos < s.len() && is_digit(s[pos]) {
        scan_digits(s, pos + 1)
    } else {
        pos
    }
}

/// The character denoted by the escape sequence at `pos` (which must start
/// with a backslash) and the position just after it; `\uXXXX` escapes
/// denoting surrogates are rejected.
pub open spec fn parse_escape(s: Seq<char>, pos: int) -> (Option<char>, int) {
    if !(0 <= pos && pos + 1 < s.len() && s[pos] == '\\') {
        (None::<char>, pos)
    } else {
        let e = s[pos + 1];
        if e == '"' {
            (Some('"'), pos + 2)
        } else if e == '\\' {
            (Some('\\'), pos + 2)
        } else if e == '/' {
            (Some('/'), pos + 2)
        } else if e == 'n' {
            (Some('\n'), pos + 2)
        } else if e == 'r' {
            (Some('\r'), pos + 2)
        } else if e == 't' {
            (Some('\t'), pos + 2)
        } else if e == 'b' {
            (Some('\u{0008}'), pos + 2)
        } else if e == 'f' {
            (Some('\u{000C}'), pos + 2)
        } else if e == 'u' {
            if pos + 5 < s.len() && hex_val(s[pos + 2]) >= 0 && hex_val(s[pos + 3]) >= 0 && hex_val(
                s[pos + 4],
            ) >= 0 && hex_val(s[pos + 5]) >= 0 {
                let n = hex_val(s[pos + 2]) * 4096 + hex_val(s[pos + 3]) * 256 + hex_val(
                    s[pos + 4],
                ) * 16 + hex_val(s[pos + 5]);
                if 0xD800 <= n < 0xE000 {
                    (None::<char>, pos)
                } else {
                    (Some(char_of(n as u32)), pos + 6)
                }
            } else {
                (None::<char>, pos)
            }
        } else {
            (None::<char>, pos)
        }
    }
}

/// The characters of a string literal from just after the opening quote,
/// and the position just after the closing quote. Unescaped characters,
/// control characters included, stand for themselves.
pub open spec fn parse_string_body(s: Seq<char>, pos: int) -> (Option<Seq<char>>, int)
    decreases s.len() - pos,
{
    if !(0 <= pos < s.len()) {
        (None::<Seq<char>>, pos)
    } else if s[pos] == '"' {
        (Some(Seq::<char>::empty()), pos + 1)
    } else if s[pos] == '\\' {
        match parse_escape(s, pos) {
            (Some(c), p1) => if pos < p1 <= s.len() {
                match parse_string_body(s, p1) {
                    (Some(r), p2) => (Some(seq![c] + r), p2),
                    (None, p2) => (None::<Seq<char>>, p2),
                }
            } else {
                (None::<Seq<char>>, pos)
            },
            (None, _) => (None::<Seq<char>>, pos),
        }
    } else {
        match parse_string_body(s, pos + 1) {
            (Some(r), p2) => (Some(seq![s[pos]] + r), p2),
            (None, p2) => (None::<Seq<char>>, p2),
        }
    }
}

/// A complete string literal at `pos`: its characters and the position just
/// after the closing quote.
pub open spec fn parse_string(s: Seq<char>, pos: int) -> (Option<Seq<char>>, int) {
    if 0 <= pos < s.len() && s[pos] == '"' {
        parse_string_body(s, pos + 1)
    } else {
        (None::<Seq<char>>, pos)
    }
}

/// The exponent part (if any) of a number whose digits so far end at `p`,
/// and the finished lexeme from `start`.
pub open spec fn parse_exp(s: Seq<char>, start: int, p: int) -> (Option<JsonV>, int) {
    if p < s.len() && (s[p] == 'e' || s[p] == 'E') {
        let q = if p + 1 < s.len() && (s[p + 1] == '+' || s[p + 1] == '-') {
            p + 2
        } else {
            p + 1
        };
        let r = scan_digits(s, q);
        if r == q {
            (None::<JsonV>, start)
        } else {
            (Some(JsonV::Num(s.subrange(start, r))), r)
        }
    } else {
        (Some(JsonV::Num(s.subrange(start, p))), p)
    }
}

/// The number lexeme at `pos`: optional minus sign, an integer part with no
/// leading zero, an optional fraction, an optional exponent.
pub open spec fn parse_number(s: Seq<char>, pos: int) -> (Option<JsonV>, int) {
    if !(0 <= pos < s.len()) {
        (None::<JsonV>, pos)
    } else {
        let p1 = if s[pos] == '-' {
            pos + 1
        } else {
            pos
        };
        if !(p1 < s.len() && is_digit(s[p1])) {
            (None::<JsonV>, pos)
        } else {
            let p2 = if s[p1] == '0' {
                p1 + 1
            } else {
                scan_digits(s, p1)
            };
            if p2 < s.len() && s[p2] == '.' {
                let p3 = scan_digits(s, p2 + 1);
                if p3 == p2 + 1 {
                    (None::<JsonV>, pos)
                } else {
                    parse_exp(s, pos, p3)
                }
            } else {
                parse_exp(s, pos, p2)
            }
        }
    }
}

/// The given keyword at `pos`, standing for the value `v`.
pub open spec fn parse_lit(s: Seq<char>, pos: int, lit: Seq<char>, v: JsonV) -> (Option<JsonV>, int) {
    if 0 <= pos && pos + lit.len() <= s.len() && s.subrange(pos, pos + lit.len() as int) == lit {
        (Some(v), pos + lit.len() as int)
    } else {
        (None::<JsonV>, pos)
    }
}

/// The JSON value starting exactly at `pos` and the position just after it.
pub open spec fn parse_value(s: Seq<char>, pos: int) -> (Option<JsonV>, int)
    decreases s.len() - pos, 1int,
{
    if !(0 <= pos < s.len()) {
        (None::<JsonV>, pos)
    } else {
        let c = s[pos];
        if c == 'n' {
            parse_lit(s, pos, seq!['n', 'u', 'l', 'l'], JsonV::Null)
        } else if c == 't' {
            parse_lit(s, pos, seq!['t', 'r', 'u', 'e'], JsonV::Bool(true))
        } else if c == 'f' {
            parse_lit(s, pos, seq!['f', 'a', 'l', 's', 'e'], JsonV::Bool(false))
        } else if c == '"' {
            match parse_string(s, pos) {
                (Some(t), p) => (Some(JsonV::Str(t)), p),
                (None, _) => (None::<JsonV>, pos),
            }
        } else if c == '[' {
            let p1 = skip_ws(s, pos + 1);
            if p1 < s.len() && s[p1] == ']' {
                (Some(JsonV::Arr(Seq::empty())), p1 + 1)
            } else if pos < p1 <= s.len() {
                match parse_items(s, p1) {
                    (Some(items), p) => (Some(JsonV::Arr(items)), p),
                    (None, p) => (None::<JsonV>, p),
                }
            } else {
                (None::<JsonV>, pos)
            }
        } else if c == '{' {
            let p1 = skip_ws(s, pos + 1);
            if p1 < s.len() && s[p1] == '}' {
                (Some(JsonV::Obj(Seq::empty())), p1 + 1)
            } else if pos < p1 <= s.len() {
                match parse_members(s, p1) {
                    (Some(ms), p) => (Some(JsonV::Obj(ms)), p),
                    (None, p) => (None::<JsonV>, p),
                }
            } else {
                (None::<JsonV>, pos)
            }
        } else if c == '-' || is_digit(c) {
            parse_number(s, pos)
        } else {
            (None::<JsonV>, pos)
        }
    }
}

/// The items of a non-empty array, from the first item (no leading
/// whitespace) through the closing bracket.
pub open spec fn parse_items(s: Seq<char>, pos: int) -> (Option<Seq<JsonV>>, int)
    decreases s.len() - pos, 2int,
{
    if !(0 <= pos < s.len()) {
        (None::<Seq<JsonV>>, pos)
    } else {
        match parse_value(s, pos) {
            (Some(v), p) => {
                let p2 = skip_ws(s, p);
                if !(pos <= p && p <= p2 && p2 < s.len()) {
                    (None::<Seq<JsonV>>, pos)
                } else if s[p2] == ']' {
                    (Some(seq![v]), p2 + 1)
                } else if s[p2] == ',' {
                    let p3 = skip_ws(s, p2 + 1);
                    if pos < p3 <= s.len() {
                        match parse_items(s, p3) {
                            (Some(rest), p4) => (Some(seq![v] + rest), p4),
                            (None, p4) => (None::<Seq<JsonV>>, p4),
                        }
                    } else {
                        (None::<Seq<JsonV>>, pos)
                    }
                } else {
                    (None::<Seq<JsonV>>, p2)
                }
            },
            (None, p) => (None::<Seq<JsonV>>, p),
        }
    }
}

/// The members of a non-empty object, from the first key (no leading
/// whitespace) through the closing brace.
pub open spec fn parse_members(s: Seq<char>, pos: int) -> (Option<Seq<(Seq<char>, JsonV)>>, int)
    decreases s.len() - pos, 2int,
{
    if !(0 <= pos < s.len()) {
        (None::<Seq<(Seq<char>, JsonV)>>, pos)
    } else {
        match parse_string(s, pos) {
            (Some(k), p) => {
                let p1 = skip_ws(s, p);
                if !(pos <= p && p <= p1 && p1 < s.len() && s[p1] == ':') {
                    (None::<Seq<(Seq<char>, JsonV)>>, pos)
                } else {
                    let p2 = skip_ws(s, p1 + 1);
                    if !(pos <= p2 <= s.len()) {
                        (None::<Seq<(Seq<char>, JsonV)>>, pos)
                    } else {
                        match parse_value(s, p2) {
                            (Some(v), p3) => {
                                let p4 = skip_ws(s, p3);
                                if !(p2 <= p3 && p3 <= p4 && p4 < s.len()) {
                                    (None::<Seq<(Seq<char>, JsonV)>>, pos)
                                } else if s[p4] == '}' {
                                    (Some(seq![(k, v)]), p4 + 1)
                                } else if s[p4] == ',' {
                                    let p5 = skip_ws(s, p4 + 1);
                                    if pos < p5 <= s.len() {
                                        match parse_members(s, p5) {
                                            (Some(rest), p6) => (Some(seq![(k, v)] + rest), p6),
                                            (None, p6) => (None::<Seq<(Seq<char>, JsonV)>>, p6),
                                        }
                                    } else {
                                        (None::<Seq<(Seq<char>, JsonV)>>, pos)
                                    }
                                } else {
                                    (None::<Seq<(Seq<char>, JsonV)>>, p4)
                                }
                            },
                            (None, p3) => (None::<Seq<(Seq<char>, JsonV)>>, p3),
                        }
                    }
                }
            },
            (None, _) => (None::<Seq<(Seq<char>, JsonV)>>, pos),
        }
    }
}

/// The value of a complete JSON document: exactly one value, optionally
/// surrounded by whitespace.
pub open spec fn parse_json(s: Seq<char>) -> Option<JsonV> {
    let p0 = skip_ws(s, 0);
    match parse_value(s, p0) {
        (Some(v), p) => if 0 <= p <= s.len() && skip_ws(s, p) == s.len() {
            Some(v)
        } else {
            None::<JsonV>
        },
        (None, _) => None::<JsonV>,
    }
}

} // verus!
