use vstd::prelude::*;

use crate::digest::{hex_lower, is_lower_hex, sha256, sha256_hex};
use crate::domain::stamp_format::{default_pretty_parts, parts_view, StampFormat, StampPart, StampPartView};
use crate::json::{json_quote, json_str, json_str_array, lemma_json_str_first, lemma_json_str_unique};
use crate::text::{join, lemma_join_head, lemma_join_push};
use vstd::utf8::encode_utf8;

verus! {

/// Configuration of bif: which stamp providers run at `new`, and how `read --pretty`
/// lays entries out.
#[derive(Debug, Clone, PartialEq, Eq)]
pub struct GlobalConfig {
    /// Ids of the stamp providers to run at `new`, in order.
    pub new_stamp_ids: Vec<String>,
    /// Pretty rendering layout.
    pub pretty: PrettyConfig,
}

#[derive(Debug, Clone, PartialEq, Eq)]
pub struct PrettyConfig {
    /// Which metadata keys `read --pretty` shows, in order; when empty, the stamp is shown
    /// in `legacy_stamp_format`.
    pub meta_keys: Vec<String>,
    /// Separator between shown metadata values.
    pub meta_sep: String,
    /// Layout of the stamp when no metadata keys are chosen.
    pub legacy_stamp_format: StampFormat,
}

pub struct PrettyConfigView {
    pub meta_keys: Seq<Seq<char>>,
    pub meta_sep: Seq<char>,
    pub legacy_stamp_format: Seq<StampPartView>,
}

pub struct GlobalConfigView {
    pub new_stamp_ids: Seq<Seq<char>>,
    pub pretty: PrettyConfigView,
}

pub open spec fn strings_view(v: Seq<String>) -> Seq<Seq<char>> {
    v.map_values(|s: String| s@)
}

impl View for PrettyConfig {
    type V = PrettyConfigView;

    open spec fn view(&self) -> PrettyConfigView {
        PrettyConfigView {
            meta_keys: strings_view(self.meta_keys@),
            meta_sep: self.meta_sep@,
            legacy_stamp_format: self.legacy_stamp_format@,
        }
    }
}

impl View for GlobalConfig {
    type V = GlobalConfigView;

    open spec fn view(&self) -> GlobalConfigView {
        GlobalConfigView { new_stamp_ids: strings_view(self.new_stamp_ids@), pretty: self.pretty@ }
    }
}

pub open spec fn default_pretty_config() -> PrettyConfigView {
    PrettyConfigView { meta_keys: Seq::empty(), meta_sep: " "@, legacy_stamp_format: default_pretty_parts() }
}

pub open spec fn default_config() -> GlobalConfigView {
    GlobalConfigView { new_stamp_ids: Seq::empty(), pretty: default_pretty_config() }
}

/// The default separator between metadata values: one space.
pub fn default_meta_sep() -> (s: String)
    ensures
        s@ == " "@,
{
    String::from_str(" ")
}

impl Default for PrettyConfig {
    fn default() -> (c: Self)
        ensures
            c@ == default_pretty_config(),
    {
        let c = Self {
            meta_keys: Vec::new(),
            meta_sep: default_meta_sep(),
            legacy_stamp_format: StampFormat::default_pretty(),
        };
        assert(strings_view(c.meta_keys@) =~= Seq::<Seq<char>>::empty());
        c
    }
}

impl Default for GlobalConfig {
    fn default() -> (c: Self)
        ensures
            c@ == default_config(),
    {
        let c = Self { new_stamp_ids: Vec::new(), pretty: PrettyConfig::default() };
        assert(strings_view(c.new_stamp_ids@) =~= Seq::<Seq<char>>::empty());
        c
    }
}

/// The JSON of one layout part, as serde writes the enum: a unit variant as its name, the
/// literal as a one-member object.
pub open spec fn part_json(p: StampPartView) -> Seq<char> {
    match p {
        StampPartView::Literal(s) => "{\"Literal\":"@ + json_str(s) + "}"@,
        StampPartView::TimeHH => "\"TimeHH\""@,
        StampPartView::TimeMM => "\"TimeMM\""@,
        StampPartView::TimeSS => "\"TimeSS\""@,
        StampPartView::DateDD => "\"DateDD\""@,
        StampPartView::DateMM => "\"DateMM\""@,
        StampPartView::DateYYYY => "\"DateYYYY\""@,
        StampPartView::Level => "\"Level\""@,
        StampPartView::Source => "\"Source\""@,
    }
}

pub open spec fn format_json(parts: Seq<StampPartView>) -> Seq<char> {
    "{\"parts\":["@ + join(parts.map_values(|p: StampPartView| part_json(p)), seq![',']) + "]}"@
}

pub open spec fn pretty_json(p: PrettyConfigView) -> Seq<char> {
    "{\"meta_keys\":"@ + json_str_array(p.meta_keys) + ",\"meta_sep\":"@ + json_str(p.meta_sep)
        + ",\"legacy_stamp_format\":"@ + format_json(p.legacy_stamp_format) + "}"@
}

/// The compact JSON of a configuration, fields in declaration order: the bytes its hash is
/// taken over.
pub open spec fn canonical_json(c: GlobalConfigView) -> Seq<char> {
    "{\"new_stamp_ids\":"@ + json_str_array(c.new_stamp_ids) + ",\"pretty\":"@ + pretty_json(c.pretty) + "}"@
}

/// The configuration hash: lowercase hex SHA-256 of the canonical JSON's UTF-8 bytes.
pub open spec fn cfg_hash(c: GlobalConfigView) -> Seq<char> {
    hex_lower(sha256(encode_utf8(canonical_json(c))))
}

fn push_json_str_array(out: &mut String, items: &Vec<String>)
    ensures
        final(out)@ == old(out)@ + json_str_array(strings_view(items@)),
{
    let ghost all = strings_view(items@).map_values(|s: Seq<char>| json_str(s));
    let mut body = String::new();
    let mut i: usize = 0;
    while i < items.len()
        invariant
            i <= items.len(),
            all == strings_view(items@).map_values(|s: Seq<char>| json_str(s)),
            body@ == join(all.take(i as int), seq![',']),
        decreases items.len() - i,
    {
        proof {
            assert(all.take(i + 1) == all.take(i as int).push(all[i as int]));
            lemma_join_push(all.take(i as int), all[i as int], seq![',']);
            reveal_strlit(",");
            assert(","@ =~= seq![',']);
        }
        if i > 0 {
            body.append(",");
        }
        let q = json_quote(items[i].as_str());
        body.append(q.as_str());
        i = i + 1;
    }
    assert(all.take(items.len() as int) == all);
    out.append("[");
    out.append(body.as_str());
    out.append("]");
    proof {
        reveal_strlit("[");
        reveal_strlit("]");
        assert("["@ =~= seq!['[']);
        assert("]"@ =~= seq![']']);
    }
}

fn part_text(p: &StampPart) -> (s: String)
    ensures
        s@ == part_json(p@),
{
    match p {
        StampPart::Literal(s) => {
            let mut out = String::from_str("{\"Literal\":");
            out.append(json_quote(s.as_str()).as_str());
            out.append("}");
            out
        },
        StampPart::TimeHH => String::from_str("\"TimeHH\""),
        StampPart::TimeMM => String::from_str("\"TimeMM\""),
        StampPart::TimeSS => String::from_str("\"TimeSS\""),
        StampPart::DateDD => String::from_str("\"DateDD\""),
        StampPart::DateMM => String::from_str("\"DateMM\""),
        StampPart::DateYYYY => String::from_str("\"DateYYYY\""),
        StampPart::Level => String::from_str("\"Level\""),
        StampPart::Source => String::from_str("\"Source\""),
    }
}

fn push_format_json(out: &mut String, fmt: &StampFormat)
    ensures
        final(out)@ == old(out)@ + format_json(fmt@),
{
    let ghost all = fmt@.map_values(|p: StampPartView| part_json(p));
    let mut body = String::new();
    let mut i: usize = 0;
    while i < fmt.parts.len()
        invariant
            i <= fmt.parts.len(),
            all == fmt@.map_values(|p: StampPartView| part_json(p)),
            body@ == join(all.take(i as int), seq![',']),
        decreases fmt.parts.len() - i,
    {
        proof {
            assert(all.take(i + 1) == all.take(i as int).push(all[i as int]));
            lemma_join_push(all.take(i as int), all[i as int], seq![',']);
            reveal_strlit(",");
            assert(","@ =~= seq![',']);
            assert(all[i as int] == part_json(fmt.parts@[i as int]@));
        }
        if i > 0 {
            body.append(",");
        }
        let t = part_text(&fmt.parts[i]);
        body.append(t.as_str());
        i = i + 1;
    }
    assert(all.take(fmt.parts.len() as int) == all);
    out.append("{\"parts\":[");
    out.append(body.as_str());
    out.append("]}");
}

impl GlobalConfig {
    /// The canonical JSON text of this configuration (compact, fields in declaration order).
    pub fn canonical_json(&self) -> (s: String)
        ensures
            s@ == canonical_json(self@),
    {
        let mut out = String::from_str("{\"new_stamp_ids\":");
        push_json_str_array(&mut out, &self.new_stamp_ids);
        out.append(",\"pretty\":");
        out.append("{\"meta_keys\":");
        push_json_str_array(&mut out, &self.pretty.meta_keys);
        out.append(",\"meta_sep\":");
        out.append(json_quote(self.pretty.meta_sep.as_str()).as_str());
        out.append(",\"legacy_stamp_format\":");
        push_format_json(&mut out, &self.pretty.legacy_stamp_format);
        out.append("}");
        out.append("}");
        out
    }

    /// The canonical JSON encoding of this configuration, as UTF-8 bytes: the input of
    /// `_cfg_hash`.
    pub fn canonical_json_bytes(&self) -> (b: Vec<u8>)
        ensures
            b@ == encode_utf8(canonical_json(self@)),
    {
        let s = self.canonical_json();
        vstd::slice::slice_to_vec(s.as_str().as_bytes())
    }

    /// SHA-256 over the canonical JSON bytes, as 64 lowercase hexadecimal digits.
    pub fn cfg_hash_hex(&self) -> (h: String)
        ensures
            h@ == cfg_hash(self@),
            h@.len() == 64,
            forall|i: int| 0 <= i < h@.len() ==> is_lower_hex(#[trigger] h@[i]),
    {
        let bytes = self.canonical_json_bytes();
        sha256_hex(bytes.as_slice())
    }
}

/// A configuration's hash depends on nothing but its contents.
pub proof fn lemma_same_config_same_hash(a: GlobalConfigView, b: GlobalConfigView)
    requires
        a == b,
    ensures
        cfg_hash(a) == cfg_hash(b),
{
}

/// Comma-separated JSON strings closed by `]` can be read back off the front of a text.
proof fn lemma_str_items_unique(xs: Seq<Seq<char>>, ys: Seq<Seq<char>>, r1: Seq<char>, r2: Seq<char>)
    requires
        join(xs.map_values(|s: Seq<char>| json_str(s)), seq![',']) + seq![']'] + r1
            == join(ys.map_values(|s: Seq<char>| json_str(s)), seq![',']) + seq![']'] + r2,
    ensures
        xs == ys,
        r1 == r2,
    decreases xs.len(),
{
    let ex = xs.map_values(|s: Seq<char>| json_str(s));
    let ey = ys.map_values(|s: Seq<char>| json_str(s));
    let l = join(ex, seq![',']) + seq![']'] + r1;
    let r = join(ey, seq![',']) + seq![']'] + r2;
    if xs.len() == 0 {
        if ys.len() > 0 {
            lemma_json_str_first(ys[0]);
            lemma_join_head(ey);
            assert(r[0] == '"');
            assert(l[0] == ']');
        }
        assert(l.drop_first() == r1);
        assert(r.drop_first() == r2);
    } else if ys.len() == 0 {
        lemma_json_str_first(xs[0]);
        lemma_join_head(ex);
        assert(l[0] == '"');
        assert(r[0] == ']');
    } else {
        let tx = if xs.len() > 1 { seq![','] + join(ex.drop_first(), seq![',']) } else { Seq::empty() };
        let ty = if ys.len() > 1 { seq![','] + join(ey.drop_first(), seq![',']) } else { Seq::empty() };
        lemma_join_head(ex);
        lemma_join_head(ey);
        assert(l == json_str(xs[0]) + (tx + seq![']'] + r1));
        assert(r == json_str(ys[0]) + (ty + seq![']'] + r2));
        lemma_json_str_unique(xs[0], ys[0], tx + seq![']'] + r1, ty + seq![']'] + r2);
        let u = tx + seq![']'] + r1;
        let v = ty + seq![']'] + r2;
        assert(u[0] == if xs.len() > 1 { ',' } else { ']' });
        assert(v[0] == if ys.len() > 1 { ',' } else { ']' });
        assert(ex.drop_first() == xs.drop_first().map_values(|s: Seq<char>| json_str(s)));
        assert(ey.drop_first() == ys.drop_first().map_values(|s: Seq<char>| json_str(s)));
        if xs.len() > 1 {
            assert(u.drop_first() == join(ex.drop_first(), seq![',']) + seq![']'] + r1);
            assert(v.drop_first() == join(ey.drop_first(), seq![',']) + seq![']'] + r2);
            lemma_str_items_unique(xs.drop_first(), ys.drop_first(), r1, r2);
        } else {
            assert(u.drop_first() == r1);
            assert(v.drop_first() == r2);
        }
        assert(xs == seq![xs[0]] + xs.drop_first());
        assert(ys == seq![ys[0]] + ys.drop_first());
    }
}

/// A JSON array of strings can be read back off the front of a text.
proof fn lemma_str_array_unique(xs: Seq<Seq<char>>, ys: Seq<Seq<char>>, r1: Seq<char>, r2: Seq<char>)
    requires
        json_str_array(xs) + r1 == json_str_array(ys) + r2,
    ensures
        xs == ys,
        r1 == r2,
{
    let l = json_str_array(xs) + r1;
    let r = json_str_array(ys) + r2;
    assert(l.drop_first() == join(xs.map_values(|s: Seq<char>| json_str(s)), seq![',']) + seq![']'] + r1);
    assert(r.drop_first() == join(ys.map_values(|s: Seq<char>| json_str(s)), seq![',']) + seq![']'] + r2);
    lemma_str_items_unique(xs, ys, r1, r2);
}

/// The JSON of a layout part can be read back off the front of a text.
proof fn lemma_part_json_unique(p1: StampPartView, p2: StampPartView, r1: Seq<char>, r2: Seq<char>)
    requires
        part_json(p1) + r1 == part_json(p2) + r2,
    ensures
        p1 == p2,
        r1 == r2,
{
    reveal_strlit("{\"Literal\":");
    reveal_strlit("}");
    reveal_strlit("\"TimeHH\"");
    reveal_strlit("\"TimeMM\"");
    reveal_strlit("\"TimeSS\"");
    reveal_strlit("\"DateDD\"");
    reveal_strlit("\"DateMM\"");
    reveal_strlit("\"DateYYYY\"");
    reveal_strlit("\"Level\"");
    reveal_strlit("\"Source\"");
    let a = part_json(p1);
    let b = part_json(p2);
    assert(a.len() >= 7 && b.len() >= 7) by {
        if let StampPartView::Literal(x) = p1 {
            lemma_json_str_first(x);
        }
        if let StampPartView::Literal(y) = p2 {
            lemma_json_str_first(y);
        }
    }
    assert((a + r1)[0] == a[0] && (b + r2)[0] == b[0]);
    assert((a + r1)[1] == a[1] && (b + r2)[1] == b[1]);
    assert((a + r1)[5] == a[5] && (b + r2)[5] == b[5]);
    match (p1, p2) {
        (StampPartView::Literal(x), StampPartView::Literal(y)) => {
            let k = "{\"Literal\":"@;
            assert(a + r1 == k + (json_str(x) + ("}"@ + r1)));
            assert(b + r2 == k + (json_str(y) + ("}"@ + r2)));
            assert((a + r1).skip(11) == json_str(x) + ("}"@ + r1));
            assert((b + r2).skip(11) == json_str(y) + ("}"@ + r2));
            lemma_json_str_unique(x, y, "}"@ + r1, "}"@ + r2);
            assert(("}"@ + r1).drop_first() == r1);
            assert(("}"@ + r2).drop_first() == r2);
        },
        (StampPartView::Literal(x), _) => {
            assert(a[0] == '{');
        },
        (_, StampPartView::Literal(y)) => {
            assert(b[0] == '{');
        },
        _ => {
            assert(a == b);
            assert((a + r1).skip(a.len() as int) == r1);
            assert((b + r2).skip(b.len() as int) == r2);
        },
    }
}

/// Comma-separated layout parts closed by `]` can be read back off the front of a text.
proof fn lemma_part_items_unique(xs: Seq<StampPartView>, ys: Seq<StampPartView>, r1: Seq<char>, r2: Seq<char>)
    requires
        join(xs.map_values(|p: StampPartView| part_json(p)), seq![',']) + seq![']'] + r1
            == join(ys.map_values(|p: StampPartView| part_json(p)), seq![',']) + seq![']'] + r2,
    ensures
        xs == ys,
        r1 == r2,
    decreases xs.len(),
{
    let ex = xs.map_values(|p: StampPartView| part_json(p));
    let ey = ys.map_values(|p: StampPartView| part_json(p));
    let l = join(ex, seq![',']) + seq![']'] + r1;
    let r = join(ey, seq![',']) + seq![']'] + r2;
    if xs.len() == 0 {
        if ys.len() > 0 {
            lemma_part_json_first(ys[0]);
            lemma_join_head(ey);
            assert(r[0] != ']');
            assert(l[0] == ']');
        }
        assert(l.drop_first() == r1);
        assert(r.drop_first() == r2);
    } else if ys.len() == 0 {
        lemma_part_json_first(xs[0]);
        lemma_join_head(ex);
        assert(l[0] != ']');
        assert(r[0] == ']');
    } else {
        let tx = if xs.len() > 1 { seq![','] + join(ex.drop_first(), seq![',']) } else { Seq::empty() };
        let ty = if ys.len() > 1 { seq![','] + join(ey.drop_first(), seq![',']) } else { Seq::empty() };
        lemma_join_head(ex);
        lemma_join_head(ey);
        assert(l == part_json(xs[0]) + (tx + seq![']'] + r1));
        assert(r == part_json(ys[0]) + (ty + seq![']'] + r2));
        lemma_part_json_unique(xs[0], ys[0], tx + seq![']'] + r1, ty + seq![']'] + r2);
        let u = tx + seq![']'] + r1;
        let v = ty + seq![']'] + r2;
        assert(u[0] == if xs.len() > 1 { ',' } else { ']' });
        assert(v[0] == if ys.len() > 1 { ',' } else { ']' });
        assert(ex.drop_first() == xs.drop_first().map_values(|p: StampPartView| part_json(p)));
        assert(ey.drop_first() == ys.drop_first().map_values(|p: StampPartView| part_json(p)));
        if xs.len() > 1 {
            assert(u.drop_first() == join(ex.drop_first(), seq![',']) + seq![']'] + r1);
            assert(v.drop_first() == join(ey.drop_first(), seq![',']) + seq![']'] + r2);
            lemma_part_items_unique(xs.drop_first(), ys.drop_first(), r1, r2);
        } else {
            assert(u.drop_first() == r1);
            assert(v.drop_first() == r2);
        }
        assert(xs == seq![xs[0]] + xs.drop_first());
        assert(ys == seq![ys[0]] + ys.drop_first());
    }
}

/// The JSON of a layout part is not empty and does not start with `]`.
proof fn lemma_part_json_first(p: StampPartView)
    ensures
        part_json(p).len() > 0,
        part_json(p)[0] != ']',
{
    reveal_strlit("{\"Literal\":");
    reveal_strlit("\"TimeHH\"");
    reveal_strlit("\"TimeMM\"");
    reveal_strlit("\"TimeSS\"");
    reveal_strlit("\"DateDD\"");
    reveal_strlit("\"DateMM\"");
    reveal_strlit("\"DateYYYY\"");
    reveal_strlit("\"Level\"");
    reveal_strlit("\"Source\"");
}

/// The JSON of a layout can be read back off the front of a text.
proof fn lemma_format_json_unique(xs: Seq<StampPartView>, ys: Seq<StampPartView>, r1: Seq<char>, r2: Seq<char>)
    requires
        format_json(xs) + r1 == format_json(ys) + r2,
    ensures
        xs == ys,
        r1 == r2,
{
    reveal_strlit("{\"parts\":[");
    reveal_strlit("]}");
    let k = "{\"parts\":["@;
    let jx = join(xs.map_values(|p: StampPartView| part_json(p)), seq![',']);
    let jy = join(ys.map_values(|p: StampPartView| part_json(p)), seq![',']);
    assert(format_json(xs) + r1 == k + (jx + seq![']'] + (seq!['}'] + r1)));
    assert(format_json(ys) + r2 == k + (jy + seq![']'] + (seq!['}'] + r2)));
    assert((format_json(xs) + r1).skip(10) == jx + seq![']'] + (seq!['}'] + r1));
    assert((format_json(ys) + r2).skip(10) == jy + seq![']'] + (seq!['}'] + r2));
    lemma_part_items_unique(xs, ys, seq!['}'] + r1, seq!['}'] + r2);
    assert((seq!['}'] + r1).drop_first() == r1);
    assert((seq!['}'] + r2).drop_first() == r2);
}

/// The JSON of a pretty layout can be read back off the front of a text.
proof fn lemma_pretty_json_unique(a: PrettyConfigView, b: PrettyConfigView, r1: Seq<char>, r2: Seq<char>)
    requires
        pretty_json(a) + r1 == pretty_json(b) + r2,
    ensures
        a == b,
        r1 == r2,
{
    reveal_strlit("{\"meta_keys\":");
    reveal_strlit(",\"meta_sep\":");
    reveal_strlit(",\"legacy_stamp_format\":");
    reveal_strlit("}");
    let k4 = "{\"meta_keys\":"@;
    let k5 = ",\"meta_sep\":"@;
    let k6 = ",\"legacy_stamp_format\":"@;
    let k7 = "}"@;
    let ta = k5 + (json_str(a.meta_sep) + (k6 + (format_json(a.legacy_stamp_format) + (k7 + r1))));
    let tb = k5 + (json_str(b.meta_sep) + (k6 + (format_json(b.legacy_stamp_format) + (k7 + r2))));
    assert(pretty_json(a) + r1 == k4 + (json_str_array(a.meta_keys) + ta));
    assert(pretty_json(b) + r2 == k4 + (json_str_array(b.meta_keys) + tb));
    assert((pretty_json(a) + r1).skip(13) == json_str_array(a.meta_keys) + ta);
    assert((pretty_json(b) + r2).skip(13) == json_str_array(b.meta_keys) + tb);
    lemma_str_array_unique(a.meta_keys, b.meta_keys, ta, tb);
    assert(ta.skip(12) == json_str(a.meta_sep) + (k6 + (format_json(a.legacy_stamp_format) + (k7 + r1))));
    assert(tb.skip(12) == json_str(b.meta_sep) + (k6 + (format_json(b.legacy_stamp_format) + (k7 + r2))));
    lemma_json_str_unique(a.meta_sep, b.meta_sep, k6 + (format_json(a.legacy_stamp_format) + (k7 + r1)), k6 + (format_json(b.legacy_stamp_format) + (k7 + r2)));
    let ua = k6 + (format_json(a.legacy_stamp_format) + (k7 + r1));
    let ub = k6 + (format_json(b.legacy_stamp_format) + (k7 + r2));
    assert(ua.skip(23) == format_json(a.legacy_stamp_format) + (k7 + r1));
    assert(ub.skip(23) == format_json(b.legacy_stamp_format) + (k7 + r2));
    lemma_format_json_unique(a.legacy_stamp_format, b.legacy_stamp_format, k7 + r1, k7 + r2);
    assert((k7 + r1).drop_first() == r1);
    assert((k7 + r2).drop_first() == r2);
}

/// Different configurations have different canonical JSON, and so hand different bytes to
/// the hash: the bytes `_cfg_hash` is taken over identify the configuration.
pub proof fn lemma_canonical_json_injective(a: GlobalConfigView, b: GlobalConfigView)
    ensures
        a != b ==> canonical_json(a) != canonical_json(b),
        a != b ==> encode_utf8(canonical_json(a)) != encode_utf8(canonical_json(b)),
{
    if canonical_json(a) == canonical_json(b) {
        reveal_strlit("{\"new_stamp_ids\":");
        reveal_strlit(",\"pretty\":");
        reveal_strlit("}");
        let k1 = "{\"new_stamp_ids\":"@;
        let k2 = ",\"pretty\":"@;
        let k3 = "}"@;
        let ta = k2 + (pretty_json(a.pretty) + k3);
        let tb = k2 + (pretty_json(b.pretty) + k3);
        assert(canonical_json(a) == k1 + (json_str_array(a.new_stamp_ids) + ta));
        assert(canonical_json(b) == k1 + (json_str_array(b.new_stamp_ids) + tb));
        assert(canonical_json(a).skip(17) == json_str_array(a.new_stamp_ids) + ta);
        assert(canonical_json(b).skip(17) == json_str_array(b.new_stamp_ids) + tb);
        lemma_str_array_unique(a.new_stamp_ids, b.new_stamp_ids, ta, tb);
        assert(ta.skip(10) == pretty_json(a.pretty) + k3);
        assert(tb.skip(10) == pretty_json(b.pretty) + k3);
        lemma_pretty_json_unique(a.pretty, b.pretty, k3, k3);
    }
    vstd::utf8::encode_utf8_decode_utf8(canonical_json(a));
    vstd::utf8::encode_utf8_decode_utf8(canonical_json(b));
}

} // verus!
