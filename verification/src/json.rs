use vstd::prelude::*;

use crate::domain::meta::{keys_sorted, pair_view};
use crate::text::join;

verus! {

pub open spec fn hex_digit_lower(n: int) -> char {
    seq!['0', '1', '2', '3', '4', '5', '6', '7', '8', '9', 'a', 'b', 'c', 'd', 'e', 'f'][n]
}

/// How serde_json writes one character inside a JSON string.
pub open spec fn json_char_escape(c: char) -> Seq<char> {
    if c == '"' {
        seq!['\\', '"']
    } else if c == '\\' {
        seq!['\\', '\\']
    } else if c == '\u{8}' {
        seq!['\\', 'b']
    } else if c == '\t' {
        seq!['\\', 't']
    } else if c == '\n' {
        seq!['\\', 'n']
    } else if c == '\u{c}' {
        seq!['\\', 'f']
    } else if c == '\r' {
        seq!['\\', 'r']
    } else if (c as u32) < 0x20 {
        seq!['\\', 'u', '0', '0', hex_digit_lower((c as int) / 16), hex_digit_lower((c as int) % 16)]
    } else {
        seq![c]
    }
}

pub open spec fn json_escape(s: Seq<char>) -> Seq<char>
    decreases s.len(),
{
    if s.len() == 0 {
        Seq::empty()
    } else {
        json_char_escape(s[0]) + json_escape(s.drop_first())
    }
}

/// A JSON string literal holding `s`, as serde_json writes it.
pub open spec fn json_str(s: Seq<char>) -> Seq<char> {
    seq!['"'] + json_escape(s) + seq!['"']
}

/// A JSON array of strings, as serde_json writes it (no spaces).
pub open spec fn json_str_array(items: Seq<Seq<char>>) -> Seq<char> {
    seq!['['] + join(items.map_values(|s: Seq<char>| json_str(s)), seq![',']) + seq![']']
}

pub open spec fn json_member(p: (Seq<char>, Seq<char>)) -> Seq<char> {
    json_str(p.0) + seq![':'] + json_str(p.1)
}

/// A JSON object mapping strings to strings, members in the given order, as serde_json
/// writes a `BTreeMap<String, String>`.
pub open spec fn json_object(pairs: Seq<(Seq<char>, Seq<char>)>) -> Seq<char> {
    seq!['{'] + join(pairs.map_values(|p: (Seq<char>, Seq<char>)| json_member(p)), seq![',']) + seq!['}']
}

/// What `serde_json::from_str::<BTreeMap<String, String>>` makes of a text: the map's
/// entries in ascending key order, or `None` when the text is no JSON object of strings.
pub uninterp spec fn json_string_map(text: Seq<char>) -> Option<Seq<(Seq<char>, Seq<char>)>>;

/// `serde_json::to_string` on a `&str`: the quoted, escaped string literal. serde_json's
/// serializer only fails through its writer, and writing into a `Vec` does not fail, so
/// the call always succeeds.
#[verifier::external_body]
pub(crate) fn json_quote(s: &str) -> (r: String)
    ensures
        r@ == json_str(s@),
{
    serde_json::to_string(s).unwrap_or_default()
}

/// `serde_json::to_string` on the `BTreeMap<String, String>` holding the given entries,
/// which must be in strictly ascending key order (so the map lists them in the same order).
/// Writing a map of strings into a `Vec` does not fail.
#[verifier::external_body]
pub(crate) fn render_json_string_map(pairs: &Vec<(String, String)>) -> (r: String)
    requires
        keys_sorted(pairs@.map_values(|p: (String, String)| pair_view(p))),
    ensures
        r@ == json_object(pairs@.map_values(|p: (String, String)| pair_view(p))),
{
    let m: std::collections::BTreeMap<String, String> = pairs.iter().cloned().collect();
    serde_json::to_string(&m).unwrap_or_default()
}

/// `serde_json::from_str::<BTreeMap<String, String>>`, its entries handed out in key order
/// (the order a `BTreeMap` iterates in). The contract states: success exactly when
/// `json_string_map` has a result, which is then the entries; the entries are in strictly
/// ascending key order; and a text written as `json_object` of entries in strictly
/// ascending key order reads back as exactly those entries. The error's message is
/// serde_json's and is not stated.
#[verifier::external_body]
pub(crate) fn parse_json_string_map(text: &str) -> (r: Result<Vec<(String, String)>, String>)
    ensures
        r is Ok <==> json_string_map(text@) is Some,
        r is Ok ==> r->Ok_0@.map_values(|p: (String, String)| pair_view(p)) == json_string_map(text@)->0,
        r is Ok ==> keys_sorted(r->Ok_0@.map_values(|p: (String, String)| pair_view(p))),
        forall|pairs: Seq<(Seq<char>, Seq<char>)>|
            keys_sorted(pairs) && text@ == #[trigger] json_object(pairs) ==> r is Ok
                && r->Ok_0@.map_values(|p: (String, String)| pair_view(p)) == pairs,
{
    match serde_json::from_str::<std::collections::BTreeMap<String, String>>(text) {
        Ok(m) => Ok(m.into_iter().collect()),
        Err(e) => Err(e.to_string()),
    }
}

} // verus!

verus! {

proof fn lemma_hex_digit_unique(a: int, b: int)
    requires
        0 <= a < 16,
        0 <= b < 16,
        hex_digit_lower(a) == hex_digit_lower(b),
    ensures
        a == b,
{
}

/// An escaped character never starts with a quote; it is the character itself or starts
/// with a backslash.
proof fn lemma_char_escape_first(c: char)
    ensures
        json_char_escape(c).len() >= 1,
        json_char_escape(c)[0] != '"',
        json_char_escape(c)[0] == '\\' || (json_char_escape(c) == seq![c] && c != '\\'),
{
}

/// One escaped character can be read back off the front of a text.
proof fn lemma_char_escape_unique(c1: char, c2: char, x: Seq<char>, y: Seq<char>)
    requires
        json_char_escape(c1) + x == json_char_escape(c2) + y,
    ensures
        c1 == c2,
        x == y,
{
    let e1 = json_char_escape(c1);
    let e2 = json_char_escape(c2);
    lemma_char_escape_first(c1);
    lemma_char_escape_first(c2);
    assert((e1 + x)[0] == e1[0]);
    assert((e2 + y)[0] == e2[0]);
    if e1[0] == '\\' {
        assert(e1.len() >= 2 && e2.len() >= 2);
        assert((e1 + x)[1] == e1[1]);
        assert((e2 + y)[1] == e2[1]);
        if e1[1] == 'u' {
            assert(e1.len() == 6 && e2.len() == 6);
            assert((e1 + x)[4] == e1[4] && (e2 + y)[4] == e2[4]);
            assert((e1 + x)[5] == e1[5] && (e2 + y)[5] == e2[5]);
            lemma_hex_digit_unique((c1 as int) / 16, (c2 as int) / 16);
            lemma_hex_digit_unique((c1 as int) % 16, (c2 as int) % 16);
            assert(c1 as int == c2 as int);
        }
        assert(e1 == e2);
    }
    assert(e1 == e2);
    assert(x == (e1 + x).skip(e1.len() as int));
    assert(y == (e2 + y).skip(e2.len() as int));
}

/// An escaped text followed by a quote can be read back off the front of a text: the
/// first unescaped quote ends it.
proof fn lemma_escape_unique(a: Seq<char>, b: Seq<char>, r1: Seq<char>, r2: Seq<char>)
    requires
        json_escape(a) + seq!['"'] + r1 == json_escape(b) + seq!['"'] + r2,
    ensures
        a == b,
        r1 == r2,
    decreases a.len(),
{
    let l = json_escape(a) + seq!['"'] + r1;
    let r = json_escape(b) + seq!['"'] + r2;
    if a.len() == 0 {
        if b.len() > 0 {
            lemma_char_escape_first(b[0]);
            assert(r[0] == json_char_escape(b[0])[0]);
            assert(l[0] == '"');
        }
        assert(l.drop_first() == r1);
        assert(r.drop_first() == r2);
    } else if b.len() == 0 {
        lemma_char_escape_first(a[0]);
        assert(l[0] == json_char_escape(a[0])[0]);
        assert(r[0] == '"');
    } else {
        let x = json_escape(a.drop_first()) + seq!['"'] + r1;
        let y = json_escape(b.drop_first()) + seq!['"'] + r2;
        assert(l == json_char_escape(a[0]) + x);
        assert(r == json_char_escape(b[0]) + y);
        lemma_char_escape_unique(a[0], b[0], x, y);
        lemma_escape_unique(a.drop_first(), b.drop_first(), r1, r2);
        assert(a == seq![a[0]] + a.drop_first());
        assert(b == seq![b[0]] + b.drop_first());
    }
}

/// A JSON string literal can be read back off the front of a text.
pub proof fn lemma_json_str_unique(a: Seq<char>, b: Seq<char>, r1: Seq<char>, r2: Seq<char>)
    requires
        json_str(a) + r1 == json_str(b) + r2,
    ensures
        a == b,
        r1 == r2,
{
    let l = json_str(a) + r1;
    let r = json_str(b) + r2;
    assert(l.drop_first() == json_escape(a) + seq!['"'] + r1);
    assert(r.drop_first() == json_escape(b) + seq!['"'] + r2);
    lemma_escape_unique(a, b, r1, r2);
}

/// A JSON string literal starts with a quote.
pub proof fn lemma_json_str_first(a: Seq<char>)
    ensures
        json_str(a).len() >= 2,
        json_str(a)[0] == '"',
{
}

} // verus!
