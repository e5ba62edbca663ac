//! The JSON round-trip law: parsing a serialized value yields the value
//! back, exactly.

use vstd::prelude::*;
use vstd::arithmetic::div_mod::lemma_fundamental_div_mod;
use crate::json::{
    JsonV, wf_json, hex_digit, hex_val, char_of, esc_char, ser_string_body, ser_string, ser_json,
    ser_items, ser_members, is_ws, is_digit, skip_ws, parse_escape, parse_string_body,
    parse_string, parse_value, parse_items, parse_members, parse_json, parse_lit,
};
use crate::json_props::lemma_char_of;

verus! {

/// The text `t` stands letter for letter at position `pos` of `s`.
pub open spec fn occurs_at(s: Seq<char>, pos: int, t: Seq<char>) -> bool {
    &&& 0 <= pos
    &&& pos + t.len() <= s.len()
    &&& forall|i: int| 0 <= i < t.len() ==> s[pos + i] == #[trigger] t[i]
}

/// An occurrence of a concatenation is an occurrence of each part in turn.
proof fn lemma_occurs_split(s: Seq<char>, pos: int, a: Seq<char>, b: Seq<char>)
    requires
        occurs_at(s, pos, a + b),
    ensures
        occurs_at(s, pos, a),
        occurs_at(s, pos + a.len(), b),
{
    assert forall|i: int| 0 <= i < a.len() implies s[pos + i] == #[trigger] a[i] by {
        assert((a + b)[i] == a[i]);
    }
    assert forall|i: int| 0 <= i < b.len() implies s[pos + a.len() + i] == #[trigger] b[i] by {
        assert((a + b)[a.len() + i] == b[i]);
    }
}

/// One character of an occurrence, read off directly.
proof fn lemma_occurs_index(s: Seq<char>, pos: int, t: Seq<char>, i: int)
    requires
        occurs_at(s, pos, t),
        0 <= i < t.len(),
    ensures
        s[pos + i] == t[i],
{
}

/// An occurrence read off as a subrange.
proof fn lemma_occurs_subrange(s: Seq<char>, pos: int, t: Seq<char>)
    requires
        occurs_at(s, pos, t),
    ensures
        s.subrange(pos, pos + t.len()) == t,
{
    assert forall|i: int| 0 <= i < t.len() implies s.subrange(pos, pos + t.len() as int)[i]
        == t[i] by {
        lemma_occurs_index(s, pos, t, i);
    }
    assert(s.subrange(pos, pos + t.len() as int) =~= t);
}

/// The hex digit of a value reads back as that value.
proof fn lemma_hex_inverse(n: int)
    requires
        0 <= n < 16,
    ensures
        hex_val(hex_digit(n)) == n,
{
    assert(hex_digit(n) as int == if n < 10 {
        48 + n
    } else {
        87 + n
    });
}

/// The first character of a serialized well-formed value is one of the six
/// value openers, and in particular not whitespace, not a separator and not
/// a closer.
proof fn lemma_ser_first(j: JsonV)
    requires
        wf_json(j),
    ensures
        ser_json(j).len() >= 1,
        ({
            let c = ser_json(j)[0];
            c == 'n' || c == 't' || c == 'f' || c == '"' || c == '[' || c == '{'
        }),
{
    match j {
        JsonV::Null => {}
        JsonV::Bool(b) => {}
        JsonV::Num(_) => {}
        JsonV::Str(t) => {
            assert(ser_json(j)[0] == '"');
        }
        JsonV::Arr(items) => {
            assert(ser_json(j)[0] == '[');
        }
        JsonV::Obj(members) => {
            assert(ser_json(j)[0] == '{');
        }
    }
}

/// Parsing the serialized body of a string, up to and including the closing
/// quote that follows it, yields the string's characters exactly.
proof fn lemma_rt_string_body(t: Seq<char>, s: Seq<char>, pos: int)
    requires
        occurs_at(s, pos, ser_string_body(t) + seq!['"']),
    ensures
        parse_string_body(s, pos) == (Some(t), pos + ser_string_body(t).len() + 1),
    decreases t.len(),
{
    if t.len() == 0 {
        assert(ser_string_body(t) + seq!['"'] =~= seq!['"']);
        lemma_occurs_index(s, pos, ser_string_body(t) + seq!['"'], 0);
        assert(s[pos] == '"');
        assert(t =~= Seq::<char>::empty());
    } else {
        let c = t[0];
        let rest = t.drop_first();
        assert(ser_string_body(t) == esc_char(c) + ser_string_body(rest));
        assert((ser_string_body(t) + seq!['"']) =~= esc_char(c) + (ser_string_body(rest)
            + seq!['"']));
        lemma_occurs_split(s, pos, esc_char(c), ser_string_body(rest) + seq!['"']);
        let esc = esc_char(c);
        lemma_occurs_index(s, pos, esc, 0);
        if esc.len() >= 2 {
            lemma_occurs_index(s, pos, esc, 1);
        }
        if esc.len() == 6 {
            lemma_occurs_index(s, pos, esc, 2);
            lemma_occurs_index(s, pos, esc, 3);
            lemma_occurs_index(s, pos, esc, 4);
            lemma_occurs_index(s, pos, esc, 5);
        }
        let p1 = pos + esc_char(c).len();
        lemma_rt_string_body(rest, s, p1);
        let inner = parse_string_body(s, p1);
        assert(inner == (Some(rest), p1 + ser_string_body(rest).len() + 1));
        if c == '"' {
            assert(s[pos] == '\\' && s[pos + 1] == '"');
            assert(parse_escape(s, pos) == (Some('"'), pos + 2));
            assert(seq![c] + rest =~= t);
        } else if c == '\\' {
            assert(s[pos] == '\\' && s[pos + 1] == '\\');
            assert(parse_escape(s, pos) == (Some('\\'), pos + 2));
            assert(seq![c] + rest =~= t);
        } else if c == '\n' {
            assert(s[pos] == '\\' && s[pos + 1] == 'n');
            assert(parse_escape(s, pos) == (Some('\n'), pos + 2));
            assert(seq![c] + rest =~= t);
        } else if c == '\r' {
            assert(s[pos] == '\\' && s[pos + 1] == 'r');
            assert(parse_escape(s, pos) == (Some('\r'), pos + 2));
            assert(seq![c] + rest =~= t);
        } else if c == '\t' {
            assert(s[pos] == '\\' && s[pos + 1] == 't');
            assert(parse_escape(s, pos) == (Some('\t'), pos + 2));
            assert(seq![c] + rest =~= t);
        } else if (c as u32) < 32 {
            let ci = c as u32 as int;
            assert(s[pos] == '\\' && s[pos + 1] == 'u' && s[pos + 2] == '0' && s[pos + 3] == '0'
                && s[pos + 4] == hex_digit(ci / 16) && s[pos + 5] == hex_digit(ci % 16));
            lemma_fundamental_div_mod(ci, 16);
            lemma_hex_inverse(ci / 16);
            lemma_hex_inverse(ci % 16);
            assert(hex_val(s[pos + 2]) == 0 && hex_val(s[pos + 3]) == 0);
            let n = hex_val(s[pos + 2]) * 4096 + hex_val(s[pos + 3]) * 256 + hex_val(s[pos + 4])
                * 16 + hex_val(s[pos + 5]);
            assert(n == ci);
            lemma_char_of(c);
            assert(parse_escape(s, pos) == (Some(c), pos + 6));
            assert(seq![c] + rest =~= t);
        } else {
            assert(esc_char(c) == seq![c]);
            assert(s[pos] == c);
            assert(seq![c] + rest =~= t);
        }
    }
}

/// Parsing a serialized string literal yields the string exactly.
proof fn lemma_rt_string(t: Seq<char>, s: Seq<char>, pos: int)
    requires
        occurs_at(s, pos, ser_string(t)),
    ensures
        parse_string(s, pos) == (Some(t), pos + ser_string(t).len()),
{
    assert(ser_string(t) =~= seq!['"'] + (ser_string_body(t) + seq!['"']));
    lemma_occurs_split(s, pos, seq!['"'], ser_string_body(t) + seq!['"']);
    lemma_occurs_index(s, pos, seq!['"'], 0);
    assert(s[pos] == '"');
    lemma_rt_string_body(t, s, pos + 1);
}

/// Parsing a serialized well-formed value yields the value exactly.
pub proof fn lemma_rt_value(j: JsonV, s: Seq<char>, pos: int)
    requires
        wf_json(j),
        occurs_at(s, pos, ser_json(j)),
    ensures
        parse_value(s, pos) == (Some(j), pos + ser_json(j).len()),
    decreases j, 1int,
{
    lemma_ser_first(j);
    lemma_occurs_index(s, pos, ser_json(j), 0);
    match j {
        JsonV::Null => {
            let lit = seq!['n', 'u', 'l', 'l'];
            assert(ser_json(j) == lit);
            assert(s[pos] == 'n');
            lemma_occurs_subrange(s, pos, lit);
            assert(parse_lit(s, pos, lit, JsonV::Null) == (Some(JsonV::Null), pos + 4));
        }
        JsonV::Bool(b) => {
            if b {
                let lit = seq!['t', 'r', 'u', 'e'];
                assert(ser_json(j) == lit);
                assert(s[pos] == 't');
                lemma_occurs_subrange(s, pos, lit);
                assert(parse_lit(s, pos, lit, JsonV::Bool(true)) == (
                    Some(JsonV::Bool(true)),
                    pos + 4,
                ));
            } else {
                let lit = seq!['f', 'a', 'l', 's', 'e'];
                assert(ser_json(j) == lit);
                assert(s[pos] == 'f');
                lemma_occurs_subrange(s, pos, lit);
                assert(parse_lit(s, pos, lit, JsonV::Bool(false)) == (
                    Some(JsonV::Bool(false)),
                    pos + 5,
                ));
            }
        }
        JsonV::Num(_) => {}
        JsonV::Str(t) => {
            assert(s[pos] == '"');
            lemma_rt_string(t, s, pos);
        }
        JsonV::Arr(items) => {
            assert(s[pos] == '[');
            assert(ser_json(j) =~= seq!['['] + (ser_items(items) + seq![']']));
            lemma_occurs_split(s, pos, seq!['['], ser_items(items) + seq![']']);
            lemma_occurs_split(s, pos + 1, ser_items(items), seq![']']);
            let close = pos + 1 + ser_items(items).len();
            lemma_occurs_index(s, close, seq![']'], 0);
            assert(s[close] == ']');
            if items.len() == 0 {
                assert(skip_ws(s, pos + 1) == pos + 1);
                assert(parse_value(s, pos) == (Some(JsonV::Arr(Seq::<JsonV>::empty())), pos + 2));
                assert(items =~= Seq::<JsonV>::empty());
                assert(JsonV::Arr(Seq::<JsonV>::empty()) == j);
            } else {
                assert(wf_json(items[0]));
                lemma_ser_first(items[0]);
                assert(ser_items(items)[0] == ser_json(items[0])[0]) by {
                    if items.len() > 1 {
                        assert((ser_json(items[0]) + seq![','] + ser_items(items.drop_first()))[0]
                            == ser_json(items[0])[0]);
                    }
                }
                lemma_occurs_index(s, pos + 1, ser_items(items), 0);
                assert(s[pos + 1] == ser_items(items)[0]);
                assert(!is_ws(s[pos + 1]));
                assert(skip_ws(s, pos + 1) == pos + 1);
                assert(s[pos + 1] != ']');
                lemma_rt_items(items, s, pos + 1);
            }
        }
        JsonV::Obj(members) => {
            assert(s[pos] == '{');
            assert(ser_json(j) =~= seq!['{'] + (ser_members(members) + seq!['}']));
            lemma_occurs_split(s, pos, seq!['{'], ser_members(members) + seq!['}']);
            lemma_occurs_split(s, pos + 1, ser_members(members), seq!['}']);
            let close = pos + 1 + ser_members(members).len();
            lemma_occurs_index(s, close, seq!['}'], 0);
            assert(s[close] == '}');
            if members.len() == 0 {
                assert(skip_ws(s, pos + 1) == pos + 1);
                assert(parse_value(s, pos) == (
                    Some(JsonV::Obj(Seq::<(Seq<char>, JsonV)>::empty())),
                    pos + 2,
                ));
                assert(members =~= Seq::<(Seq<char>, JsonV)>::empty());
                assert(JsonV::Obj(Seq::<(Seq<char>, JsonV)>::empty()) == j);
            } else {
                assert(ser_members(members)[0] == '"') by {
                    let head = ser_string(members[0].0);
                    assert(head[0] == '"');
                    if members.len() > 1 {
                        assert((head + seq![':'] + ser_json(members[0].1) + seq![','] + ser_members(
                            members.drop_first(),
                        ))[0] == head[0]);
                    } else {
                        assert((head + seq![':'] + ser_json(members[0].1))[0] == head[0]);
                    }
                }
                lemma_occurs_index(s, pos + 1, ser_members(members), 0);
                assert(s[pos + 1] == ser_members(members)[0]);
                assert(!is_ws(s[pos + 1]));
                assert(skip_ws(s, pos + 1) == pos + 1);
                assert(s[pos + 1] != '}');
                lemma_rt_members(members, s, pos + 1);
            }
        }
    }
}

/// Parsing the serialized items of a non-empty array, up to and including
/// the closing bracket that follows them, yields the items exactly.
proof fn lemma_rt_items(items: Seq<JsonV>, s: Seq<char>, pos: int)
    requires
        items.len() >= 1,
        forall|i: int| 0 <= i < items.len() ==> wf_json(#[trigger] items[i]),
        occurs_at(s, pos, ser_items(items)),
        pos + ser_items(items).len() < s.len(),
        s[pos + ser_items(items).len()] == ']',
    ensures
        parse_items(s, pos) == (Some(items), pos + ser_items(items).len() + 1),
    decreases items, 2int,
{
    let v0 = items[0];
    assert(wf_json(v0));
    if items.len() == 1 {
        assert(ser_items(items) == ser_json(v0));
        lemma_rt_value(v0, s, pos);
        let p = pos + ser_json(v0).len();
        assert(s[p] == ']');
        assert(!is_ws(s[p]));
        assert(skip_ws(s, p) == p);
        assert(seq![v0] =~= items);
    } else {
        let rest = items.drop_first();
        assert(ser_items(items) == ser_json(v0) + seq![','] + ser_items(rest));
        assert(ser_items(items) =~= ser_json(v0) + (seq![','] + ser_items(rest)));
        lemma_occurs_split(s, pos, ser_json(v0), seq![','] + ser_items(rest));
        let p = pos + ser_json(v0).len();
        lemma_occurs_split(s, p, seq![','], ser_items(rest));
        lemma_rt_value(v0, s, pos);
        lemma_occurs_index(s, p, seq![','], 0);
        assert(s[p] == ',');
        assert(!is_ws(s[p]));
        assert(skip_ws(s, p) == p);
        let p3 = p + 1;
        assert(rest[0] == items[1]);
        assert(wf_json(rest[0]));
        lemma_ser_first(rest[0]);
        assert(ser_items(rest)[0] == ser_json(rest[0])[0]) by {
            if rest.len() > 1 {
                assert((ser_json(rest[0]) + seq![','] + ser_items(rest.drop_first()))[0]
                    == ser_json(rest[0])[0]);
            }
        }
        lemma_occurs_index(s, p3, ser_items(rest), 0);
        assert(s[p3] == ser_items(rest)[0]);
        assert(!is_ws(s[p3]));
        assert(skip_ws(s, p3) == p3);
        lemma_rt_items(rest, s, p3);
        assert(seq![v0] + rest =~= items);
    }
}

/// Parsing the serialized members of a non-empty object, up to and
/// including the closing brace that follows them, yields the members
/// exactly.
proof fn lemma_rt_members(members: Seq<(Seq<char>, JsonV)>, s: Seq<char>, pos: int)
    requires
        members.len() >= 1,
        forall|i: int| 0 <= i < members.len() ==> wf_json(#[trigger] members[i].1),
        occurs_at(s, pos, ser_members(members)),
        pos + ser_members(members).len() < s.len(),
        s[pos + ser_members(members).len()] == '}',
    ensures
        parse_members(s, pos) == (Some(members), pos + ser_members(members).len() + 1),
    decreases members, 2int,
{
    let k0 = members[0].0;
    let v0 = members[0].1;
    assert(wf_json(v0));
    let head = ser_string(k0) + seq![':'] + ser_json(v0);
    if members.len() == 1 {
        assert(ser_members(members) == head);
        assert(head =~= ser_string(k0) + (seq![':'] + ser_json(v0)));
        lemma_occurs_split(s, pos, ser_string(k0), seq![':'] + ser_json(v0));
        let pk = pos + ser_string(k0).len();
        lemma_occurs_split(s, pk, seq![':'], ser_json(v0));
        lemma_rt_string(k0, s, pos);
        lemma_occurs_index(s, pk, seq![':'], 0);
        assert(s[pk] == ':');
        assert(!is_ws(s[pk]));
        assert(skip_ws(s, pk) == pk);
        let pv = pk + 1;
        lemma_ser_first(v0);
        lemma_occurs_index(s, pv, ser_json(v0), 0);
        assert(s[pv] == ser_json(v0)[0]);
        assert(!is_ws(s[pv]));
        assert(skip_ws(s, pv) == pv);
        lemma_rt_value(v0, s, pv);
        let p3 = pv + ser_json(v0).len();
        assert(s[p3] == '}');
        assert(!is_ws(s[p3]));
        assert(skip_ws(s, p3) == p3);
        assert(seq![(k0, v0)] =~= members);
        assert((k0, v0) == members[0]);
    } else {
        let rest = members.drop_first();
        assert(ser_members(members) == head + seq![','] + ser_members(rest));
        assert(ser_members(members) =~= ser_string(k0) + (seq![':'] + (ser_json(v0) + (seq![',']
            + ser_members(rest)))));
        lemma_occurs_split(s, pos, ser_string(k0), seq![':'] + (ser_json(v0) + (seq![',']
            + ser_members(rest))));
        let pk = pos + ser_string(k0).len();
        lemma_occurs_split(s, pk, seq![':'], ser_json(v0) + (seq![','] + ser_members(rest)));
        let pv = pk + 1;
        lemma_occurs_split(s, pv, ser_json(v0), seq![','] + ser_members(rest));
        let p3 = pv + ser_json(v0).len();
        lemma_occurs_split(s, p3, seq![','], ser_members(rest));
        lemma_rt_string(k0, s, pos);
        lemma_occurs_index(s, pk, seq![':'], 0);
        assert(s[pk] == ':');
        assert(skip_ws(s, pk) == pk);
        lemma_ser_first(v0);
        lemma_occurs_index(s, pv, ser_json(v0), 0);
        assert(s[pv] == ser_json(v0)[0]);
        assert(!is_ws(s[pv]));
        assert(skip_ws(s, pv) == pv);
        lemma_rt_value(v0, s, pv);
        lemma_occurs_index(s, p3, seq![','], 0);
        assert(s[p3] == ',');
        assert(skip_ws(s, p3) == p3);
        let p5 = p3 + 1;
        assert(rest[0] == members[1]);
        assert(wf_json(rest[0].1));
        assert(ser_members(rest)[0] == '"') by {
            let rhead = ser_string(rest[0].0);
            assert(rhead[0] == '"');
            if rest.len() > 1 {
                assert((rhead + seq![':'] + ser_json(rest[0].1) + seq![','] + ser_members(
                    rest.drop_first(),
                ))[0] == rhead[0]);
            } else {
                assert((rhead + seq![':'] + ser_json(rest[0].1))[0] == rhead[0]);
            }
        }
        lemma_occurs_index(s, p5, ser_members(rest), 0);
        assert(s[p5] == ser_members(rest)[0]);
        assert(!is_ws(s[p5]));
        assert(skip_ws(s, p5) == p5);
        lemma_rt_members(rest, s, p5);
        assert(seq![(k0, v0)] + rest =~= members);
        assert((k0, v0) == members[0]);
    }
}

/// Law: JSON round-trip. Parsing the serialization of any well-formed value
/// yields exactly that value.
pub proof fn lemma_json_round_trip(j: JsonV)
    requires
        wf_json(j),
    ensures
        parse_json(ser_json(j)) == Some(j),
{
    let s = ser_json(j);
    lemma_ser_first(j);
    assert(!is_ws(s[0]));
    assert(skip_ws(s, 0) == 0);
    assert(occurs_at(s, 0, s));
    lemma_rt_value(j, s, 0);
    assert(skip_ws(s, s.len() as int) == s.len());
}

} // verus!
