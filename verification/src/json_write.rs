//! The executable JSON serializer, proved to produce exactly the text that
//! [`crate::json::ser_json`] specifies.

use vstd::prelude::*;
use crate::json::{
    Json, JsonV, json_view, json_views, member_views, hex_digit, esc_char, ser_string_body,
    ser_string, ser_json, ser_items, ser_members,
};
use crate::strutil::{string_to_chars, chars_to_string};

verus! {

/// Views of a sequence of values, one value at a time.
pub proof fn lemma_json_views(s: Seq<Json>)
    ensures
        json_views(s).len() == s.len(),
        forall|i: int| 0 <= i < s.len() ==> json_views(s)[i] == json_view(#[trigger] s[i]),
    decreases s.len(),
{
    if s.len() > 0 {
        lemma_json_views(s.drop_first());
        assert forall|i: int| 0 <= i < s.len() implies json_views(s)[i] == json_view(
            #[trigger] s[i],
        ) by {
            if i > 0 {
                assert(s.drop_first()[i - 1] == s[i]);
            }
        }
    }
}

/// Views of a sequence of members, one member at a time.
pub proof fn lemma_member_views(s: Seq<(String, Json)>)
    ensures
        member_views(s).len() == s.len(),
        forall|i: int|
            0 <= i < s.len() ==> member_views(s)[i] == ((#[trigger] s[i]).0@, json_view(s[i].1)),
    decreases s.len(),
{
    if s.len() > 0 {
        lemma_member_views(s.drop_first());
        assert forall|i: int| 0 <= i < s.len() implies member_views(s)[i] == ((#[trigger] s[i]).0@,
        json_view(s[i].1)) by {
            if i > 0 {
                assert(s.drop_first()[i - 1] == s[i]);
            }
        }
    }
}

/// Serializing a concatenation of string bodies serializes each in turn.
proof fn lemma_ser_body_append(a: Seq<char>, b: Seq<char>)
    ensures
        ser_string_body(a + b) == ser_string_body(a) + ser_string_body(b),
    decreases a.len(),
{
    if a.len() == 0 {
        assert(a + b =~= b);
        assert(ser_string_body(a) + ser_string_body(b) =~= ser_string_body(b));
    } else {
        assert((a + b).drop_first() =~= a.drop_first() + b);
        lemma_ser_body_append(a.drop_first(), b);
        assert((a + b)[0] == a[0]);
        assert(esc_char(a[0]) + (ser_string_body(a.drop_first()) + ser_string_body(b)) =~= (
        esc_char(a[0]) + ser_string_body(a.drop_first())) + ser_string_body(b));
    }
}

/// The hex digit character for `n`.
fn hex_digit_of(n: u8) -> (c: char)
    requires
        n < 16,
    ensures
        c == hex_digit(n as int),
{
    if n < 10 {
        (48 + n) as char
    } else {
        (87 + n) as char
    }
}

/// Append one character of a string body, escaped as the format requires.
fn write_escaped(c: char, out: &mut Vec<char>)
    ensures
        final(out)@ == old(out)@ + esc_char(c),
{
    let ghost start = out@;
    if c == '"' {
        out.push('\\');
        out.push('"');
        assert(out@ =~= start + esc_char(c));
    } else if c == '\\' {
        out.push('\\');
        out.push('\\');
        assert(out@ =~= start + esc_char(c));
    } else if c == '\n' {
        out.push('\\');
        out.push('n');
        assert(out@ =~= start + esc_char(c));
    } else if c == '\r' {
        out.push('\\');
        out.push('r');
        assert(out@ =~= start + esc_char(c));
    } else if c == '\t' {
        out.push('\\');
        out.push('t');
        assert(out@ =~= start + esc_char(c));
    } else if (c as u32) < 32 {
        let n = c as u32;
        out.push('\\');
        out.push('u');
        out.push('0');
        out.push('0');
        out.push(hex_digit_of((n / 16) as u8));
        out.push(hex_digit_of((n % 16) as u8));
        assert(out@ =~= start + esc_char(c));
    } else {
        out.push(c);
        assert(out@ =~= start + esc_char(c));
    }
}

/// Append a serialized string literal.
fn write_string(s: &str, out: &mut Vec<char>)
    ensures
        final(out)@ == old(out)@ + ser_string(s@),
{
    let ghost start = out@;
    let cs = string_to_chars(s);
    out.push('"');
    let n = cs.len();
    let mut i: usize = 0;
    while i < n
        invariant
            i <= n,
            n == cs@.len(),
            cs@ == s@,
            out@ == start + seq!['"'] + ser_string_body(s@.take(i as int)),
        decreases n - i,
    {
        write_escaped(cs[i], out);
        proof {
            assert(s@.take(i + 1) =~= s@.take(i as int) + seq![s@[i as int]]);
            lemma_ser_body_append(s@.take(i as int), seq![s@[i as int]]);
            let one = seq![s@[i as int]];
            assert(one.drop_first() =~= Seq::<char>::empty());
            assert(ser_string_body(one) == esc_char(one[0]) + ser_string_body(one.drop_first()));
            assert(ser_string_body(Seq::<char>::empty()) == Seq::<char>::empty());
            assert(esc_char(one[0]) + Seq::<char>::empty() =~= esc_char(one[0]));
            assert(one[0] == s@[i as int]);
            assert(out@ =~= start + seq!['"'] + ser_string_body(s@.take(i + 1)));
        }
        i += 1;
    }
    out.push('"');
    proof {
        assert(s@.take(n as int) =~= s@);
        assert(out@ =~= start + ser_string(s@));
    }
}

/// Append the serialization of a value.
pub fn write_json(j: &Json, out: &mut Vec<char>)
    ensures
        final(out)@ == old(out)@ + ser_json(json_view(*j)),
    decreases *j, 0int,
{
    let ghost start = out@;
    match j {
        Json::Null => {
            out.push('n');
            out.push('u');
            out.push('l');
            out.push('l');
            assert(out@ =~= start + ser_json(json_view(*j)));
        },
        Json::Bool(b) => {
            if *b {
                out.push('t');
                out.push('r');
                out.push('u');
                out.push('e');
            } else {
                out.push('f');
                out.push('a');
                out.push('l');
                out.push('s');
                out.push('e');
            }
            assert(out@ =~= start + ser_json(json_view(*j)));
        },
        Json::Num(s) => {
            let cs = string_to_chars(s.as_str());
            let n = cs.len();
            let mut i: usize = 0;
            while i < n
                invariant
                    i <= n,
                    n == cs@.len(),
                    out@ == start + cs@.take(i as int),
                decreases n - i,
            {
                out.push(cs[i]);
                assert(out@ =~= start + cs@.take(i + 1));
                i += 1;
            }
            assert(cs@.take(n as int) =~= cs@);
            assert(out@ =~= start + ser_json(json_view(*j)));
        },
        Json::Str(s) => {
            write_string(s.as_str(), out);
            assert(out@ =~= start + ser_json(json_view(*j)));
        },
        Json::Arr(items) => {
            out.push('[');
            if items.len() > 0 {
                write_items_from(items, 0, out);
            }
            out.push(']');
            proof {
                if items@.len() == 0 {
                    lemma_json_views(items@);
                    assert(ser_items(json_views(items@)) =~= Seq::<char>::empty());
                }
                assert(json_views(items@).skip(0) =~= json_views(items@));
                assert(out@ =~= start + ser_json(json_view(*j)));
            }
        },
        Json::Obj(members) => {
            out.push('{');
            if members.len() > 0 {
                write_members_from(members, 0, out);
            }
            out.push('}');
            proof {
                if members@.len() == 0 {
                    lemma_member_views(members@);
                    assert(ser_members(member_views(members@)) =~= Seq::<char>::empty());
                }
                assert(member_views(members@).skip(0) =~= member_views(members@));
                assert(out@ =~= start + ser_json(json_view(*j)));
            }
        },
    }
}

/// Append the serialization of the items from position `k` on.
fn write_items_from(items: &Vec<Json>, k: usize, out: &mut Vec<char>)
    requires
        k < items@.len(),
    ensures
        final(out)@ == old(out)@ + ser_items(json_views(items@).skip(k as int)),
    decreases *items, items@.len() - k,
{
    let ghost start = out@;
    let ghost views = json_views(items@);
    proof {
        lemma_json_views(items@);
    }
    let n = items.len();
    write_json(&items[k], out);
    if k + 1 < n {
        out.push(',');
        write_items_from(items, k + 1, out);
        proof {
            let suffix = views.skip(k as int);
            assert(suffix[0] == json_view(items@[k as int]));
            assert(suffix.drop_first() =~= views.skip(k + 1));
            assert(ser_items(suffix) == ser_json(suffix[0]) + seq![','] + ser_items(
                suffix.drop_first(),
            ));
            assert(out@ =~= start + ser_items(suffix));
        }
    } else {
        proof {
            let suffix = views.skip(k as int);
            assert(suffix.len() == 1);
            assert(suffix[0] == json_view(items@[k as int]));
            assert(out@ =~= start + ser_items(suffix));
        }
    }
}

/// Append the serialization of the members from position `k` on.
fn write_members_from(members: &Vec<(String, Json)>, k: usize, out: &mut Vec<char>)
    requires
        k < members@.len(),
    ensures
        final(out)@ == old(out)@ + ser_members(member_views(members@).skip(k as int)),
    decreases *members, members@.len() - k,
{
    let ghost start = out@;
    let ghost views = member_views(members@);
    proof {
        lemma_member_views(members@);
    }
    let n = members.len();
    write_string(members[k].0.as_str(), out);
    out.push(':');
    write_json(&members[k].1, out);
    if k + 1 < n {
        out.push(',');
        write_members_from(members, k + 1, out);
        proof {
            let suffix = views.skip(k as int);
            assert(suffix[0] == (members@[k as int].0@, json_view(members@[k as int].1)));
            assert(suffix.drop_first() =~= views.skip(k + 1));
            assert(ser_members(suffix) == ser_string(suffix[0].0) + seq![':'] + ser_json(
                suffix[0].1,
            ) + seq![','] + ser_members(suffix.drop_first()));
            assert(out@ =~= start + ser_members(suffix));
        }
    } else {
        proof {
            let suffix = views.skip(k as int);
            assert(suffix.len() == 1);
            assert(suffix[0] == (members@[k as int].0@, json_view(members@[k as int].1)));
            assert(out@ =~= start + ser_members(suffix));
        }
    }
}

/// The exact serialization of a value, as a string.
pub fn json_to_string(j: &Json) -> (s: String)
    ensures
        s@ == ser_json(j.deep_view()),
{
    let mut out: Vec<char> = Vec::new();
    write_json(j, &mut out);
    proof {
        assert(out@ =~= ser_json(json_view(*j)));
    }
    chars_to_string(&out)
}

} // verus!
