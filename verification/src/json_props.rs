//! Basic facts about the JSON parser: every parsing function stays within
//! the input and consumes at least one character when it succeeds.

use vstd::prelude::*;
use crate::json::{
    char_of, is_ws, is_digit, skip_ws, scan_digits, parse_escape, parse_string_body, parse_string,
    parse_number, parse_exp, parse_value, parse_items, parse_members,
};

verus! {

/// The codepoint function determines the character.
pub proof fn lemma_char_of(c: char)
    ensures
        char_of(c as u32) == c,
{
    let n = c as u32;
    assert(exists|d: char| (#[trigger] (d as u32)) == n) by {
        assert(c as u32 == n);
    }
    let d = char_of(n);
    assert(d as u32 == n);
    assert(d == c);
}

/// Whitespace skipping stays within the input and never moves backwards.
pub proof fn lemma_skip_ws_bounds(s: Seq<char>, pos: int)
    requires
        0 <= pos <= s.len(),
    ensures
        pos <= skip_ws(s, pos) <= s.len(),
    decreases s.len() - pos,
{
    if pos < s.len() && is_ws(s[pos]) {
        lemma_skip_ws_bounds(s, pos + 1);
    }
}

/// Digit scanning stays within the input and never moves backwards.
pub proof fn lemma_scan_digits_bounds(s: Seq<char>, pos: int)
    requires
        0 <= pos <= s.len(),
    ensures
        pos <= scan_digits(s, pos) <= s.len(),
    decreases s.len() - pos,
{
    if pos < s.len() && is_digit(s[pos]) {
        lemma_scan_digits_bounds(s, pos + 1);
    }
}

/// An escape sequence ends within the input, after its backslash; a failed
/// escape consumes nothing.
pub proof fn lemma_parse_escape_bounds(s: Seq<char>, pos: int)
    requires
        0 <= pos <= s.len(),
    ensures
        parse_escape(s, pos).0 is Some ==> pos < parse_escape(s, pos).1 <= s.len(),
        parse_escape(s, pos).0 is None ==> parse_escape(s, pos).1 == pos,
{
}

/// A string body ends within the input, after at least its closing quote;
/// a failure never moves backwards.
pub proof fn lemma_parse_string_body_bounds(s: Seq<char>, pos: int)
    requires
        0 <= pos <= s.len(),
    ensures
        pos <= parse_string_body(s, pos).1 <= s.len(),
        parse_string_body(s, pos).0 is Some ==> parse_string_body(s, pos).1 > pos,
    decreases s.len() - pos,
{
    if 0 <= pos < s.len() {
        if s[pos] == '"' {
        } else if s[pos] == '\\' {
            lemma_parse_escape_bounds(s, pos);
            match parse_escape(s, pos) {
                (Some(c), p1) => {
                    lemma_parse_string_body_bounds(s, p1);
                },
                (None, _) => {},
            }
        } else {
            lemma_parse_string_body_bounds(s, pos + 1);
        }
    }
}

/// A string literal ends within the input, after at least its two quotes;
/// a failure never moves backwards.
pub proof fn lemma_parse_string_bounds(s: Seq<char>, pos: int)
    requires
        0 <= pos <= s.len(),
    ensures
        pos <= parse_string(s, pos).1 <= s.len(),
        parse_string(s, pos).0 is Some ==> parse_string(s, pos).1 > pos + 1,
{
    if 0 <= pos < s.len() && s[pos] == '"' {
        lemma_parse_string_body_bounds(s, pos + 1);
    }
}

/// A number lexeme ends within the input and is nonempty; a failure
/// consumes nothing.
pub proof fn lemma_parse_number_bounds(s: Seq<char>, pos: int)
    requires
        0 <= pos <= s.len(),
    ensures
        parse_number(s, pos).0 is Some ==> pos < parse_number(s, pos).1 <= s.len(),
        parse_number(s, pos).0 is None ==> parse_number(s, pos).1 == pos,
{
    if 0 <= pos < s.len() {
        let p1 = if s[pos] == '-' {
            pos + 1
        } else {
            pos
        };
        if p1 < s.len() && is_digit(s[p1]) {
            lemma_scan_digits_bounds(s, p1);
            let p2 = if s[p1] == '0' {
                p1 + 1
            } else {
                scan_digits(s, p1)
            };
            assert(p1 < scan_digits(s, p1) <= s.len() || s[p1] != '0' == false) by {
                if s[p1] != '0' {
                    assert(scan_digits(s, p1) == scan_digits(s, p1 + 1));
                    lemma_scan_digits_bounds(s, p1 + 1);
                }
            }
            if p2 < s.len() && s[p2] == '.' {
                lemma_scan_digits_bounds(s, p2 + 1);
                let p3 = scan_digits(s, p2 + 1);
                if p3 != p2 + 1 {
                    lemma_parse_exp_bounds(s, pos, p3);
                }
            } else {
                lemma_parse_exp_bounds(s, pos, p2);
            }
        }
    }
}

/// The exponent part ends within the input and past the digits so far; a
/// failure consumes nothing.
pub proof fn lemma_parse_exp_bounds(s: Seq<char>, start: int, p: int)
    requires
        0 <= start < p <= s.len(),
    ensures
        parse_exp(s, start, p).0 is Some ==> start < parse_exp(s, start, p).1 <= s.len()
            && parse_exp(s, start, p).1 >= p,
        parse_exp(s, start, p).0 is None ==> parse_exp(s, start, p).1 == start,
{
    if p < s.len() && (s[p] == 'e' || s[p] == 'E') {
        let q = if p + 1 < s.len() && (s[p + 1] == '+' || s[p + 1] == '-') {
            p + 2
        } else {
            p + 1
        };
        lemma_scan_digits_bounds(s, q);
    }
}

/// A parsed value ends within the input and consumes at least one
/// character; a failure never moves backwards.
pub proof fn lemma_parse_value_bounds(s: Seq<char>, pos: int)
    requires
        0 <= pos <= s.len(),
    ensures
        pos <= parse_value(s, pos).1 <= s.len(),
        parse_value(s, pos).0 is Some ==> parse_value(s, pos).1 > pos,
    decreases s.len() - pos, 1int,
{
    if 0 <= pos < s.len() {
        let c = s[pos];
        if c == '"' {
            lemma_parse_string_bounds(s, pos);
        } else if c == '[' || c == '{' {
            lemma_skip_ws_bounds(s, pos + 1);
            let p1 = skip_ws(s, pos + 1);
            if p1 < s.len() && ((c == '[' && s[p1] == ']') || (c == '{' && s[p1] == '}')) {
            } else if pos < p1 <= s.len() {
                if c == '[' {
                    lemma_parse_items_bounds(s, p1);
                } else {
                    lemma_parse_members_bounds(s, p1);
                }
            }
        } else if c == '-' || is_digit(c) {
            lemma_parse_number_bounds(s, pos);
        }
    }
}

/// Parsed array items end within the input past the first item; a failure
/// never moves backwards.
pub proof fn lemma_parse_items_bounds(s: Seq<char>, pos: int)
    requires
        0 <= pos <= s.len(),
    ensures
        pos <= parse_items(s, pos).1 <= s.len(),
        parse_items(s, pos).0 is Some ==> parse_items(s, pos).1 > pos,
    decreases s.len() - pos, 2int,
{
    if 0 <= pos < s.len() {
        lemma_parse_value_bounds(s, pos);
        match parse_value(s, pos) {
            (Some(v), p) => {
                lemma_skip_ws_bounds(s, p);
                let p2 = skip_ws(s, p);
                if pos <= p && p <= p2 && p2 < s.len() {
                    if s[p2] == ']' {
                    } else if s[p2] == ',' {
                        lemma_skip_ws_bounds(s, p2 + 1);
                        let p3 = skip_ws(s, p2 + 1);
                        if pos < p3 <= s.len() {
                            lemma_parse_items_bounds(s, p3);
                        }
                    }
                }
            },
            (None, p) => {},
        }
    }
}

/// Parsed object members end within the input past the first key; a
/// failure never moves backwards.
pub proof fn lemma_parse_members_bounds(s: Seq<char>, pos: int)
    requires
        0 <= pos <= s.len(),
    ensures
        pos <= parse_members(s, pos).1 <= s.len(),
        parse_members(s, pos).0 is Some ==> parse_members(s, pos).1 > pos,
    decreases s.len() - pos, 2int,
{
    if 0 <= pos < s.len() {
        lemma_parse_string_bounds(s, pos);
        match parse_string(s, pos) {
            (Some(k), p) => {
                lemma_skip_ws_bounds(s, p);
                let p1 = skip_ws(s, p);
                if pos <= p && p <= p1 && p1 < s.len() && s[p1] == ':' {
                    lemma_skip_ws_bounds(s, p1 + 1);
                    let p2 = skip_ws(s, p1 + 1);
                    if pos <= p2 && p2 <= s.len() {
                        lemma_parse_value_bounds(s, p2);
                        match parse_value(s, p2) {
                            (Some(v), p3) => {
                                lemma_skip_ws_bounds(s, p3);
                                let p4 = skip_ws(s, p3);
                                if p2 <= p3 && p3 <= p4 && p4 < s.len() {
                                    if s[p4] == '}' {
                                    } else if s[p4] == ',' {
                                        lemma_skip_ws_bounds(s, p4 + 1);
                                        let p5 = skip_ws(s, p4 + 1);
                                        if pos < p5 <= s.len() {
                                            lemma_parse_members_bounds(s, p5);
                                        }
                                    }
                                }
                            },
                            (None, _) => {},
                        }
                    }
                }
            },
            (None, _) => {},
        }
    }
}

} // verus!
