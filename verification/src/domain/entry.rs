use vstd::prelude::*;

use crate::domain::meta::{keys_sorted, pair_view, MetaMap};
use crate::json::{json_object, json_string_map, parse_json_string_map, render_json_string_map};
use crate::text::{
    all_ws, chars_of, contains_char, is_blank, join, join_strings, lemma_join_push, lemma_split_join,
    lemma_split_pieces, lemma_splitn_join, lemma_trim_empty, none_contains, push_char, split,
    split_chars, splitn, splitn_chars, str_eq, string_of, trim,
};

verus! {

/// How one character of a field is written in a record.
pub open spec fn escape_char(c: char) -> Seq<char> {
    if c == '\\' {
        seq!['\\', '\\']
    } else if c == '\t' {
        seq!['\\', 't']
    } else if c == '\n' {
        seq!['\\', 'n']
    } else if c == '\r' {
        seq!['\\', 'r']
    } else {
        seq![c]
    }
}

/// A field escaped so that the record stays on one line and tab-separated.
pub open spec fn escape(s: Seq<char>) -> Seq<char>
    decreases s.len(),
{
    if s.len() == 0 {
        Seq::empty()
    } else {
        escape_char(s[0]) + escape(s.drop_first())
    }
}

pub open spec fn prefix_ok(out: Seq<char>, r: Result<Seq<char>, Seq<char>>) -> Result<Seq<char>, Seq<char>> {
    match r {
        Ok(x) => Ok(out + x),
        Err(e) => Err(e),
    }
}

pub open spec fn trailing_backslash_reason() -> Seq<char> {
    "trailing backslash in escape sequence"@
}

pub open spec fn unknown_escape_reason(c: char) -> Seq<char> {
    "unknown escape sequence: \\"@.push(c)
}

/// The inverse of `escape`; the error is the reason text for the first bad sequence.
pub open spec fn unescape(s: Seq<char>) -> Result<Seq<char>, Seq<char>>
    decreases s.len(),
{
    if s.len() == 0 {
        Ok(Seq::empty())
    } else if s[0] != '\\' {
        prefix_ok(seq![s[0]], unescape(s.drop_first()))
    } else if s.len() == 1 {
        Err(trailing_backslash_reason())
    } else if s[1] == '\\' {
        prefix_ok(seq!['\\'], unescape(s.skip(2)))
    } else if s[1] == 't' {
        prefix_ok(seq!['\t'], unescape(s.skip(2)))
    } else if s[1] == 'n' {
        prefix_ok(seq!['\n'], unescape(s.skip(2)))
    } else if s[1] == 'r' {
        prefix_ok(seq!['\r'], unescape(s.skip(2)))
    } else {
        Err(unknown_escape_reason(s[1]))
    }
}

pub proof fn lemma_escape_concat(a: Seq<char>, b: Seq<char>)
    ensures
        escape(a + b) == escape(a) + escape(b),
    decreases a.len(),
{
    if a.len() > 0 {
        assert((a + b).drop_first() == a.drop_first() + b);
        lemma_escape_concat(a.drop_first(), b);
        assert((a + b)[0] == a[0]);
        assert(escape_char(a[0]) + (escape(a.drop_first()) + escape(b)) == (escape_char(a[0]) + escape(a.drop_first())) + escape(b));
    } else {
        assert(a + b == b);
        assert(escape(a) + escape(b) == escape(b));
    }
}

/// An escaped field holds no tab, newline or carriage return.
pub proof fn lemma_escape_one_line(s: Seq<char>)
    ensures
        !escape(s).contains('\t'),
        !escape(s).contains('\n'),
        !escape(s).contains('\r'),
    decreases s.len(),
{
    if s.len() > 0 {
        lemma_escape_one_line(s.drop_first());
        let h = escape_char(s[0]);
        let t = escape(s.drop_first());
        assert forall|c: char| c == '\t' || c == '\n' || c == '\r' implies !(h + t).contains(c) by {
            if (h + t).contains(c) {
                let k = choose|k: int| 0 <= k < (h + t).len() && (h + t)[k] == c;
                if k >= h.len() {
                    assert(t[k - h.len()] == c);
                }
            }
        }
    }
}

/// Unescaping an escaped field gives the field back.
pub proof fn lemma_unescape_escape(s: Seq<char>)
    ensures
        unescape(escape(s)) == Ok::<Seq<char>, Seq<char>>(s),
    decreases s.len(),
{
    if s.len() > 0 {
        lemma_unescape_escape(s.drop_first());
        let c = s[0];
        let t = escape(s.drop_first());
        let e = escape_char(c) + t;
        assert(escape(s) == e);
        if c == '\\' || c == '\t' || c == '\n' || c == '\r' {
            assert(e[0] == '\\');
            assert(e[1] == escape_char(c)[1]);
            assert(e.skip(2) == t);
            if c == '\\' {
                assert(e[1] == '\\');
            } else if c == '\t' {
                assert(e[1] == 't');
            } else if c == '\n' {
                assert(e[1] == 'n');
            } else {
                assert(e[1] == 'r');
            }
            assert(unescape(e) == prefix_ok(seq![c], unescape(e.skip(2))));
        } else {
            assert(e[0] == c);
            assert(e.drop_first() == t);
            assert(unescape(e) == prefix_ok(seq![c], unescape(e.drop_first())));
        }
        assert(seq![c] + s.drop_first() == s);
        assert(unescape(e) == prefix_ok(seq![c], Ok::<Seq<char>, Seq<char>>(s.drop_first())));
        assert(unescape(e) == Ok::<Seq<char>, Seq<char>>(s));
    } else {
        assert(escape(s) == Seq::<char>::empty());
        assert(s == Seq::<char>::empty());
    }
}

/// Escaping what was unescaped gives the text back, for text on one line without tabs
/// (escaping never writes those raw).
pub proof fn lemma_escape_unescape(s: Seq<char>)
    requires
        !s.contains('\t'),
        !s.contains('\n'),
        !s.contains('\r'),
    ensures
        unescape(s) matches Ok(u) ==> escape(u) == s,
    decreases s.len(),
{
    if s.len() > 0 {
        assert forall|c: char| c == '\t' || c == '\n' || c == '\r' implies !s.drop_first().contains(c) by {
            if s.drop_first().contains(c) {
                let k = choose|k: int| 0 <= k < s.drop_first().len() && s.drop_first()[k] == c;
                assert(s[k + 1] == c);
            }
        }
        if s.len() >= 2 {
            assert forall|c: char| c == '\t' || c == '\n' || c == '\r' implies !s.skip(2).contains(c) by {
                if s.skip(2).contains(c) {
                    let k = choose|k: int| 0 <= k < s.skip(2).len() && s.skip(2)[k] == c;
                    assert(s[k + 2] == c);
                }
            }
        }
        assert(s[0] != '\t' && s[0] != '\n' && s[0] != '\r');
        if s[0] != '\\' {
            lemma_escape_unescape(s.drop_first());
            if let Ok(u) = unescape(s) {
                let r = unescape(s.drop_first())->Ok_0;
                assert(u == seq![s[0]] + r);
                assert(u.drop_first() == r);
                assert(u[0] == s[0]);
                assert(escape(u) == escape_char(s[0]) + escape(r));
                assert(seq![s[0]] + s.drop_first() == s);
                assert(escape(u) == s);
            }
        } else if s.len() >= 2 {
            lemma_escape_unescape(s.skip(2));
            if let Ok(u) = unescape(s) {
                let r = unescape(s.skip(2))->Ok_0;
                assert(u.drop_first() == r);
                assert(escape(u) == escape_char(u[0]) + escape(r));
                assert(escape_char(u[0]) == seq![s[0], s[1]]);
                assert(seq![s[0], s[1]] + s.skip(2) == s);
                assert(escape(u) == s);
            }
        }
    } else {
        if let Ok(u) = unescape(s) {
            assert(u == Seq::<char>::empty());
            assert(escape(u) == Seq::<char>::empty());
            assert(s == Seq::<char>::empty());
        }
    }
}

/// Escapes a field so it can be stored in a single-line record: `\` becomes `\\`,
/// tab `\t`, newline `\n`, carriage return `\r`.
pub fn escape_field(s: &str) -> (r: String)
    ensures
        r@ == escape(s@),
{
    let v = chars_of(s);
    let mut out = String::new();
    let mut i: usize = 0;
    while i < v.len()
        invariant
            i <= v.len(),
            v@ == s@,
            out@ == escape(s@.take(i as int)),
        decreases v.len() - i,
    {
        let ch = v[i];
        proof {
            assert(s@.take(i + 1) == s@.take(i as int) + seq![ch]);
            lemma_escape_concat(s@.take(i as int), seq![ch]);
            assert(seq![ch].drop_first() == Seq::<char>::empty());
            assert(escape(seq![ch]) == escape_char(ch) + escape(Seq::<char>::empty()));
            assert(escape(seq![ch]) == escape_char(ch));
        }
        if ch == '\\' {
            push_char(&mut out, '\\');
            push_char(&mut out, '\\');
        } else if ch == '\t' {
            push_char(&mut out, '\\');
            push_char(&mut out, 't');
        } else if ch == '\n' {
            push_char(&mut out, '\\');
            push_char(&mut out, 'n');
        } else if ch == '\r' {
            push_char(&mut out, '\\');
            push_char(&mut out, 'r');
        } else {
            push_char(&mut out, ch);
        }
        i = i + 1;
    }
    assert(s@.take(v.len() as int) == s@);
    out
}

/// Reverses `escape_field`; the error explains the first bad escape sequence.
pub fn unescape_field(s: &str) -> (r: Result<String, String>)
    ensures
        match r {
            Ok(x) => unescape(s@) == Ok::<Seq<char>, Seq<char>>(x@),
            Err(e) => unescape(s@) == Err::<Seq<char>, Seq<char>>(e@),
        },
{
    let v = chars_of(s);
    let mut out = String::new();
    let mut i: usize = 0;
    assert(s@.skip(0) == s@);
    assert(out@ + Seq::<char>::empty() == out@);
    while i < v.len()
        invariant
            i <= v.len(),
            v@ == s@,
            unescape(s@) == prefix_ok(out@, unescape(s@.skip(i as int))),
        decreases v.len() - i,
    {
        let ghost rest = s@.skip(i as int);
        let ghost before = out@;
        let ch = v[i];
        if ch != '\\' {
            push_char(&mut out, ch);
            proof {
                assert(rest.drop_first() == s@.skip(i + 1));
                assert(before + (seq![ch] + Seq::<char>::empty()) == out@);
                match unescape(s@.skip(i + 1)) {
                    Ok(x) => {
                        assert(before + (seq![ch] + x) == out@ + x);
                    },
                    Err(_) => {},
                }
            }
            i = i + 1;
        } else {
            if i + 1 >= v.len() {
                let reason = String::from_str("trailing backslash in escape sequence");
                return Err(reason);
            }
            let esc = v[i + 1];
            let decoded: char = if esc == '\\' {
                '\\'
            } else if esc == 't' {
                '\t'
            } else if esc == 'n' {
                '\n'
            } else if esc == 'r' {
                '\r'
            } else {
                let mut reason = String::from_str("unknown escape sequence: \\");
                push_char(&mut reason, esc);
                assert(rest[1] == esc);
                return Err(reason);
            };
            push_char(&mut out, decoded);
            proof {
                assert(rest[1] == esc);
                assert(rest.skip(2) == s@.skip(i + 2));
                match unescape(s@.skip(i + 2)) {
                    Ok(x) => {
                        assert(before + (seq![decoded] + x) == out@ + x);
                    },
                    Err(_) => {},
                }
            }
            i = i + 2;
        }
    }
    assert(s@.skip(v.len() as int) == Seq::<char>::empty());
    assert(out@ + Seq::<char>::empty() == out@);
    Ok(out)
}

} // verus!

verus! {

/// The severity written in a stamp.
#[derive(Debug, Clone, Copy, PartialEq, Eq, Structural)]
pub enum EntryLevel {
    DEBUG,
    INFO,
    WARN,
    ERROR,
}

/// The text of a level in a stamp record.
pub open spec fn level_text(l: EntryLevel) -> Seq<char> {
    match l {
        EntryLevel::DEBUG => seq!['D', 'E', 'B', 'U', 'G'],
        EntryLevel::INFO => seq!['I', 'N', 'F', 'O'],
        EntryLevel::WARN => seq!['W', 'A', 'R', 'N'],
        EntryLevel::ERROR => seq!['E', 'R', 'R', 'O', 'R'],
    }
}

/// The level a text names, if any.
pub open spec fn level_from_text(t: Seq<char>) -> Option<EntryLevel> {
    if t == level_text(EntryLevel::DEBUG) {
        Some(EntryLevel::DEBUG)
    } else if t == level_text(EntryLevel::INFO) {
        Some(EntryLevel::INFO)
    } else if t == level_text(EntryLevel::WARN) {
        Some(EntryLevel::WARN)
    } else if t == level_text(EntryLevel::ERROR) {
        Some(EntryLevel::ERROR)
    } else {
        None
    }
}

impl EntryLevel {
    pub fn from_str(s: &str) -> (r: Option<Self>)
        ensures
            r == level_from_text(s@),
    {
        proof {
            reveal_strlit("DEBUG");
            reveal_strlit("INFO");
            reveal_strlit("WARN");
            reveal_strlit("ERROR");
            assert("DEBUG"@ =~= level_text(EntryLevel::DEBUG));
            assert("INFO"@ =~= level_text(EntryLevel::INFO));
            assert("WARN"@ =~= level_text(EntryLevel::WARN));
            assert("ERROR"@ =~= level_text(EntryLevel::ERROR));
        }
        if str_eq(s, "DEBUG") {
            Some(EntryLevel::DEBUG)
        } else if str_eq(s, "INFO") {
            Some(EntryLevel::INFO)
        } else if str_eq(s, "WARN") {
            Some(EntryLevel::WARN)
        } else if str_eq(s, "ERROR") {
            Some(EntryLevel::ERROR)
        } else {
            None
        }
    }

    pub fn to_record(&self) -> (r: &'static str)
        ensures
            r@ == level_text(*self),
    {
        proof {
            reveal_strlit("DEBUG");
            reveal_strlit("INFO");
            reveal_strlit("WARN");
            reveal_strlit("ERROR");
            assert("DEBUG"@ =~= level_text(EntryLevel::DEBUG));
            assert("INFO"@ =~= level_text(EntryLevel::INFO));
            assert("WARN"@ =~= level_text(EntryLevel::WARN));
            assert("ERROR"@ =~= level_text(EntryLevel::ERROR));
        }
        match self {
            EntryLevel::DEBUG => "DEBUG",
            EntryLevel::INFO => "INFO",
            EntryLevel::WARN => "WARN",
            EntryLevel::ERROR => "ERROR",
        }
    }
}

pub proof fn lemma_level_roundtrip(l: EntryLevel)
    ensures
        level_from_text(level_text(l)) == Some(l),
        !level_text(l).contains('|'),
        !level_text(l).contains('\t'),
        level_text(l).len() > 0,
{
    let t = level_text(l);
    assert(level_text(EntryLevel::DEBUG)[0] == 'D');
    assert(level_text(EntryLevel::INFO)[0] == 'I');
    assert(level_text(EntryLevel::WARN)[0] == 'W');
    assert(level_text(EntryLevel::ERROR)[0] == 'E');
    assert(level_text(EntryLevel::ERROR)[1] == 'R');
    assert(level_text(EntryLevel::DEBUG)[1] == 'E');
    if t.contains('|') || t.contains('\t') {
        let k = choose|k: int| 0 <= k < t.len() && (t[k] == '|' || t[k] == '\t');
        assert(false);
    }
}

/// Why a record or an entry was refused.
#[derive(Debug, PartialEq, Eq)]
pub enum EntryParseError {
    InvalidEntryFormat { expected: &'static str, got: String },
    InvalidMetaJson { got: String, reason: String },
    InvalidStampFormat { expected: &'static str, got: String },
    EmptyTimestamp,
    EmptySource,
    EmptyBody,
    EmptyTag,
    InvalidLevel { got: String },
    InvalidSourceContainsDelimiter,
    InvalidTagContainsComma { tag: String },
    InvalidEscape { field: &'static str, reason: String },
}

/// An `EntryParseError` as plain values; the JSON parser's message is left out.
pub enum ParseErr {
    InvalidEntryFormat { expected: Seq<char>, got: Seq<char> },
    InvalidMetaJson { got: Seq<char> },
    InvalidStampFormat { expected: Seq<char>, got: Seq<char> },
    EmptyTimestamp,
    EmptySource,
    EmptyBody,
    EmptyTag,
    InvalidLevel { got: Seq<char> },
    InvalidSourceContainsDelimiter,
    InvalidTagContainsComma { tag: Seq<char> },
    InvalidEscape { field: Seq<char>, reason: Seq<char> },
}

impl View for EntryParseError {
    type V = ParseErr;

    open spec fn view(&self) -> ParseErr {
        match self {
            EntryParseError::InvalidEntryFormat { expected, got } => ParseErr::InvalidEntryFormat { expected: expected@, got: got@ },
            EntryParseError::InvalidMetaJson { got, reason } => ParseErr::InvalidMetaJson { got: got@ },
            EntryParseError::InvalidStampFormat { expected, got } => ParseErr::InvalidStampFormat { expected: expected@, got: got@ },
            EntryParseError::EmptyTimestamp => ParseErr::EmptyTimestamp,
            EntryParseError::EmptySource => ParseErr::EmptySource,
            EntryParseError::EmptyBody => ParseErr::EmptyBody,
            EntryParseError::EmptyTag => ParseErr::EmptyTag,
            EntryParseError::InvalidLevel { got } => ParseErr::InvalidLevel { got: got@ },
            EntryParseError::InvalidSourceContainsDelimiter => ParseErr::InvalidSourceContainsDelimiter,
            EntryParseError::InvalidTagContainsComma { tag } => ParseErr::InvalidTagContainsComma { tag: tag@ },
            EntryParseError::InvalidEscape { field, reason } => ParseErr::InvalidEscape { field: field@, reason: reason@ },
        }
    }
}

/// The stamp of an entry: when, how severe, and from where.
#[derive(Debug, Clone, PartialEq, Eq)]
pub struct Stamp {
    pub timestamp: String,
    pub level: EntryLevel,
    pub source: Option<String>,
}

pub struct StampView {
    pub timestamp: Seq<char>,
    pub level: EntryLevel,
    pub source: Option<Seq<char>>,
}

pub open spec fn opt_view(o: Option<String>) -> Option<Seq<char>> {
    match o {
        Some(s) => Some(s@),
        None => None,
    }
}

impl View for Stamp {
    type V = StampView;

    open spec fn view(&self) -> StampView {
        StampView { timestamp: self.timestamp@, level: self.level, source: opt_view(self.source) }
    }
}

/// The source text of a stamp record: empty when there is none.
pub open spec fn source_text(src: Option<Seq<char>>) -> Seq<char> {
    match src {
        Some(s) => s,
        None => Seq::empty(),
    }
}

/// `<TIMESTAMP>|<LEVEL>|<SOURCE?>`.
pub open spec fn stamp_record(st: StampView) -> Seq<char> {
    join(seq![st.timestamp, level_text(st.level), source_text(st.source)], seq!['|'])
}

/// The first stamp invariant that fails, if any.
pub open spec fn stamp_error(st: StampView) -> Option<ParseErr> {
    if all_ws(st.timestamp) {
        Some(ParseErr::EmptyTimestamp)
    } else {
        match st.source {
            Some(src) => if all_ws(src) {
                Some(ParseErr::EmptySource)
            } else if src.contains('|') {
                Some(ParseErr::InvalidSourceContainsDelimiter)
            } else {
                None
            },
            None => None,
        }
    }
}

pub open spec fn stamp_format_expected() -> Seq<char> {
    "TIMESTAMP|LEVEL|SOURCE?"@
}

/// What `Stamp::from_record` makes of a text.
pub open spec fn parse_stamp(line: Seq<char>) -> Result<StampView, ParseErr> {
    let parts = splitn(line, 3, '|');
    if parts.len() < 3 {
        Err(ParseErr::InvalidStampFormat { expected: stamp_format_expected(), got: line })
    } else {
        match level_from_text(parts[1]) {
            None => Err(ParseErr::InvalidLevel { got: parts[1] }),
            Some(level) => {
                let st = StampView {
                    timestamp: parts[0],
                    level,
                    source: if parts[2].len() == 0 { None } else { Some(parts[2]) },
                };
                match stamp_error(st) {
                    Some(e) => Err(e),
                    None => Ok(st),
                }
            },
        }
    }
}

pub open spec fn stamp_result_view(r: Result<Stamp, EntryParseError>) -> Result<StampView, ParseErr> {
    match r {
        Ok(s) => Ok(s@),
        Err(e) => Err(e@),
    }
}

proof fn lemma_splitn_len(s: Seq<char>, n: nat, c: char)
    ensures
        1 <= splitn(s, n, c).len(),
        n >= 1 ==> splitn(s, n, c).len() <= n,
    decreases n,
{
    if !(n <= 1 || crate::text::index_of(s, c) < 0) {
        crate::text::lemma_index_of(s, c);
        let i = crate::text::index_of(s, c);
        lemma_splitn_len(s.skip(i + 1), (n - 1) as nat, c);
    }
}

impl Stamp {
    pub fn new(timestamp: String, level: EntryLevel, source: Option<String>) -> (s: Stamp)
        ensures
            s@ == (StampView { timestamp: timestamp@, level, source: opt_view(source) }),
    {
        Stamp { timestamp, level, source }
    }

    /// Checks the stamp invariants: non-blank timestamp; a source, when present, neither
    /// blank nor holding `|`.
    pub fn validate(&self) -> (r: Result<(), EntryParseError>)
        ensures
            r is Ok <==> stamp_error(self@) is None,
            r is Err ==> stamp_error(self@) == Some(r->Err_0@),
    {
        if is_blank(self.timestamp.as_str()) {
            return Err(EntryParseError::EmptyTimestamp);
        }
        match &self.source {
            Some(source) => {
                if is_blank(source.as_str()) {
                    return Err(EntryParseError::EmptySource);
                }
                if contains_char(source.as_str(), '|') {
                    return Err(EntryParseError::InvalidSourceContainsDelimiter);
                }
            },
            None => {},
        }
        Ok(())
    }

    /// Parses `<TIMESTAMP>|<LEVEL>|<SOURCE?>`; an empty source means none.
    pub fn from_record(line: &str) -> (r: Result<Stamp, EntryParseError>)
        ensures
            stamp_result_view(r) == parse_stamp(line@),
    {
        let v = chars_of(line);
        let parts = splitn_chars(v.as_slice(), 3, '|');
        proof {
            lemma_splitn_len(line@, 3, '|');
        }
        if parts.len() < 3 {
            return Err(EntryParseError::InvalidStampFormat {
                expected: "TIMESTAMP|LEVEL|SOURCE?",
                got: String::from_str(line),
            });
        }
        assert(parts@[1]@ == splitn(line@, 3, '|')[1]);
        assert(parts@[0]@ == splitn(line@, 3, '|')[0]);
        assert(parts@[2]@ == splitn(line@, 3, '|')[2]);
        let level = match EntryLevel::from_str(parts[1].as_str()) {
            Some(l) => l,
            None => {
                return Err(EntryParseError::InvalidLevel { got: parts[1].clone() });
            },
        };
        let source = if parts[2].as_str().is_empty() {
            None
        } else {
            Some(parts[2].clone())
        };
        let stamp = Stamp { timestamp: parts[0].clone(), level, source };
        match stamp.validate() {
            Ok(()) => Ok(stamp),
            Err(e) => Err(e),
        }
    }

    /// Writes `<TIMESTAMP>|<LEVEL>|<SOURCE?>`.
    pub fn to_record(&self) -> (r: String)
        ensures
            r@ == stamp_record(self@),
    {
        let mut out = self.timestamp.clone();
        out.append("|");
        out.append(self.level.to_record());
        out.append("|");
        match &self.source {
            Some(src) => out.append(src.as_str()),
            None => {},
        }
        proof {
            reveal_strlit("|");
            assert("|"@ =~= seq!['|']);
            let st = self@;
            let parts = seq![st.timestamp, level_text(st.level), source_text(st.source)];
            assert(parts.drop_first() == seq![level_text(st.level), source_text(st.source)]);
            assert(parts.drop_first().drop_first() == seq![source_text(st.source)]);
            assert(join(parts.drop_first().drop_first(), seq!['|']) == source_text(st.source));
            assert(join(parts.drop_first(), seq!['|']) == level_text(st.level) + seq!['|'] + source_text(st.source));
            assert(join(parts, seq!['|']) == st.timestamp + seq!['|'] + join(parts.drop_first(), seq!['|']));
            assert(out@ == st.timestamp + seq!['|'] + (level_text(st.level) + seq!['|'] + source_text(st.source)));
        }
        out
    }
}

/// Stamps without `|` or tab in their texts read back from their record.
pub proof fn lemma_stamp_roundtrip(st: StampView)
    requires
        stamp_error(st) is None,
        !st.timestamp.contains('|'),
    ensures
        parse_stamp(stamp_record(st)) == Ok::<StampView, ParseErr>(st),
{
    lemma_level_roundtrip(st.level);
    let parts = seq![st.timestamp, level_text(st.level), source_text(st.source)];
    assert forall|i: int| 0 <= i < parts.len() implies !(#[trigger] parts[i]).contains('|') by {
        if i == 2 {
            match st.source {
                Some(src) => {},
                None => { assert(parts[2] == Seq::<char>::empty()); },
            }
        }
    }
    lemma_splitn_join(parts, 3, '|');
    match st.source {
        Some(src) => {
            lemma_trim_empty(src);
            if src.len() == 0 {
                assert(all_ws(src));
            }
        },
        None => {},
    }
}

} // verus!

verus! {

/// One note: its stamp, its text, its tags and the metadata captured with it.
#[derive(Debug, Clone, PartialEq, Eq)]
pub struct Entry {
    pub stamp: Stamp,
    pub body: String,
    pub tags: Vec<String>,
    pub meta: MetaMap,
}

pub struct EntryView {
    pub stamp: StampView,
    pub body: Seq<char>,
    pub tags: Seq<Seq<char>>,
    pub meta: Seq<(Seq<char>, Seq<char>)>,
}

impl View for Entry {
    type V = EntryView;

    open spec fn view(&self) -> EntryView {
        EntryView {
            stamp: self.stamp@,
            body: self.body@,
            tags: self.tags@.map_values(|t: String| t@),
            meta: self.meta@,
        }
    }
}

/// The first tag that is blank or holds a comma, as the error it gives.
pub open spec fn tags_error(tags: Seq<Seq<char>>) -> Option<ParseErr>
    decreases tags.len(),
{
    if tags.len() == 0 {
        None
    } else if all_ws(tags[0]) {
        Some(ParseErr::EmptyTag)
    } else if tags[0].contains(',') {
        Some(ParseErr::InvalidTagContainsComma { tag: tags[0] })
    } else {
        tags_error(tags.drop_first())
    }
}

/// The first entry invariant that fails, if any.
pub open spec fn entry_error(e: EntryView) -> Option<ParseErr> {
    if stamp_error(e.stamp) is Some {
        stamp_error(e.stamp)
    } else if all_ws(e.body) {
        Some(ParseErr::EmptyBody)
    } else {
        tags_error(e.tags)
    }
}

/// The fields of an entry's record, in order: the meta field only when there is metadata.
pub open spec fn record_fields(e: EntryView) -> Seq<Seq<char>> {
    let base = seq![stamp_record(e.stamp), join(e.tags, seq![',']), escape(e.body)];
    if e.meta.len() == 0 {
        base
    } else {
        base.push(escape(json_object(e.meta)))
    }
}

/// `<STAMP>\t<TAGS>\t<BODY>` or `<STAMP>\t<TAGS>\t<BODY>\t<META_JSON>`.
pub open spec fn entry_record(e: EntryView) -> Seq<char> {
    join(record_fields(e), seq!['\t'])
}

pub open spec fn entry_format_expected() -> Seq<char> {
    "STAMP<TAB>TAGS<TAB>BODY[<TAB>META_JSON]"@
}

pub open spec fn nonempty_stamp_expected() -> Seq<char> {
    "non-empty STAMP"@
}

pub open spec fn tags_of_field(t: Seq<char>) -> Seq<Seq<char>> {
    if t.len() == 0 {
        Seq::empty()
    } else {
        split(t, ',')
    }
}

/// The metadata field read back: unescaped, then parsed as a JSON object of strings.
pub open spec fn meta_of_field(parts: Seq<Seq<char>>) -> Result<Seq<(Seq<char>, Seq<char>)>, ParseErr> {
    if parts.len() < 4 {
        Ok(Seq::empty())
    } else {
        match unescape(parts[3]) {
            Err(reason) => Err(ParseErr::InvalidEscape { field: "meta"@, reason }),
            Ok(mj) => match json_string_map(mj) {
                None => Err(ParseErr::InvalidMetaJson { got: mj }),
                Some(m) => Ok(m),
            },
        }
    }
}

/// What `Entry::from_record` makes of a line.
pub open spec fn parse_entry(line: Seq<char>) -> Result<EntryView, ParseErr> {
    let parts = splitn(line, 4, '\t');
    if parts.len() < 3 {
        Err(ParseErr::InvalidEntryFormat { expected: entry_format_expected(), got: line })
    } else if parts[0].len() == 0 {
        Err(ParseErr::InvalidEntryFormat { expected: nonempty_stamp_expected(), got: line })
    } else {
        match parse_stamp(parts[0]) {
            Err(e) => Err(e),
            Ok(st) => match unescape(parts[2]) {
                Err(reason) => Err(ParseErr::InvalidEscape { field: "body"@, reason }),
                Ok(body) => match meta_of_field(parts) {
                    Err(e) => Err(e),
                    Ok(meta) => {
                        let e = EntryView { stamp: st, body, tags: tags_of_field(parts[1]), meta };
                        match entry_error(e) {
                            Some(err) => Err(err),
                            None => Ok(e),
                        }
                    },
                },
            },
        }
    }
}

pub open spec fn entry_result_view(r: Result<Entry, EntryParseError>) -> Result<EntryView, ParseErr> {
    match r {
        Ok(e) => Ok(e@),
        Err(e) => Err(e@),
    }
}

/// An entry that its record gives back: valid, metadata in key order, and no
/// delimiter inside the parts that are written unescaped.
pub open spec fn record_safe(e: EntryView) -> bool {
    &&& entry_error(e) is None
    &&& keys_sorted(e.meta)
    &&& !e.stamp.timestamp.contains('|')
    &&& !e.stamp.timestamp.contains('\t')
    &&& !source_text(e.stamp.source).contains('\t')
    &&& none_contains(e.tags, '\t')
}

proof fn lemma_tags_error_none(tags: Seq<Seq<char>>)
    requires
        tags_error(tags) is None,
    ensures
        none_contains(tags, ','),
        forall|i: int| 0 <= i < tags.len() ==> !all_ws(#[trigger] tags[i]),
    decreases tags.len(),
{
    if tags.len() > 0 {
        lemma_tags_error_none(tags.drop_first());
        assert forall|i: int| 0 <= i < tags.len() implies !(#[trigger] tags[i]).contains(',') && !all_ws(tags[i]) by {
            if i > 0 {
                assert(tags[i] == tags.drop_first()[i - 1]);
            }
        }
    }
}

pub proof fn lemma_join_without(parts: Seq<Seq<char>>, sep: char, c: char)
    requires
        none_contains(parts, c),
        sep != c,
    ensures
        !join(parts, seq![sep]).contains(c),
    decreases parts.len(),
{
    if parts.len() >= 2 {
        assert forall|i: int| 0 <= i < parts.drop_first().len() implies !(#[trigger] parts.drop_first()[i]).contains(c) by {
            assert(parts.drop_first()[i] == parts[i + 1]);
        }
        lemma_join_without(parts.drop_first(), sep, c);
        let a = parts[0];
        let b = join(parts.drop_first(), seq![sep]);
        assert(!a.contains(c));
        if (a + seq![sep] + b).contains(c) {
            let k = choose|k: int| 0 <= k < (a + seq![sep] + b).len() && (a + seq![sep] + b)[k] == c;
            if k < a.len() {
                assert(a[k] == c);
            } else if k > a.len() {
                assert(b[k - a.len() - 1] == c);
            }
        }
    } else if parts.len() == 1 {
        assert(!parts[0].contains(c));
    }
}

proof fn lemma_join_nonempty(parts: Seq<Seq<char>>, sep: Seq<char>)
    requires
        parts.len() >= 1,
        parts[0].len() > 0,
    ensures
        join(parts, sep).len() > 0,
{
    if parts.len() >= 2 {
    }
}

proof fn lemma_nonempty_not_ws(s: Seq<char>)
    requires
        !all_ws(s),
    ensures
        s.len() > 0,
{
}

/// The parts of a safe entry's record come back as the entry's fields.
proof fn lemma_record_fields_split(e: EntryView)
    requires
        record_safe(e),
    ensures
        splitn(entry_record(e), 4, '\t') == record_fields(e),
        record_fields(e)[0].len() > 0,
{
    let f = record_fields(e);
    lemma_level_roundtrip(e.stamp.level);
    lemma_escape_one_line(e.body);
    lemma_escape_one_line(json_object(e.meta));
    let sp = seq![e.stamp.timestamp, level_text(e.stamp.level), source_text(e.stamp.source)];
    assert forall|i: int| 0 <= i < sp.len() implies !(#[trigger] sp[i]).contains('\t') by {}
    lemma_join_without(sp, '|', '\t');
    lemma_join_without(e.tags, ',', '\t');
    assert forall|i: int| 0 <= i < f.len() implies !(#[trigger] f[i]).contains('\t') by {}
    lemma_splitn_join(f, 4, '\t');
    assert(!all_ws(e.stamp.timestamp));
    lemma_nonempty_not_ws(e.stamp.timestamp);
    lemma_join_nonempty(sp, seq!['|']);
}

/// What each field of a safe entry's record reads back as.
proof fn lemma_record_parts(e: EntryView)
    requires
        record_safe(e),
    ensures
        ({
            let sp = splitn(entry_record(e), 4, '\t');
            &&& sp.len() >= 3
            &&& sp[0].len() > 0
            &&& parse_stamp(sp[0]) == Ok::<StampView, ParseErr>(e.stamp)
            &&& unescape(sp[2]) == Ok::<Seq<char>, Seq<char>>(e.body)
            &&& (e.meta.len() == 0 <==> sp.len() == 3)
            &&& (e.meta.len() > 0 ==> unescape(sp[3]) == Ok::<Seq<char>, Seq<char>>(json_object(e.meta)))
        }),
{
    lemma_record_fields_split(e);
    lemma_stamp_roundtrip(e.stamp);
    lemma_unescape_escape(e.body);
    lemma_unescape_escape(json_object(e.meta));
}

/// A safe entry's record reads back as the entry, given that its metadata JSON does.
pub proof fn lemma_entry_roundtrip(e: EntryView)
    requires
        record_safe(e),
        e.meta.len() > 0 ==> json_string_map(json_object(e.meta)) == Some(e.meta),
    ensures
        parse_entry(entry_record(e)) == Ok::<EntryView, ParseErr>(e),
{
    let f = record_fields(e);
    lemma_record_fields_split(e);
    lemma_stamp_roundtrip(e.stamp);
    lemma_unescape_escape(e.body);
    lemma_unescape_escape(json_object(e.meta));
    lemma_tags_error_none(e.tags);
    if e.tags.len() > 0 {
        lemma_split_join(e.tags, ',');
        assert(!all_ws(e.tags[0]));
        lemma_nonempty_not_ws(e.tags[0]);
        lemma_join_nonempty(e.tags, seq![',']);
    } else {
        assert(join(e.tags, seq![',']) == Seq::<char>::empty());
    }
    assert(tags_of_field(f[1]) == e.tags);
    if e.meta.len() == 0 {
        assert(f.len() == 3);
        assert(e.meta == Seq::<(Seq<char>, Seq<char>)>::empty());
    } else {
        assert(f.len() == 4);
        assert(f[3] == escape(json_object(e.meta)));
    }
    assert(meta_of_field(f) == Ok::<Seq<(Seq<char>, Seq<char>)>, ParseErr>(e.meta));
    let st = parse_stamp(f[0])->Ok_0;
    assert(st == e.stamp);
    let e2 = EntryView { stamp: st, body: e.body, tags: tags_of_field(f[1]), meta: e.meta };
    assert(e2 == e);
}

} // verus!

verus! {

fn tags_validate(tags: &Vec<String>) -> (r: Result<(), EntryParseError>)
    ensures
        r is Ok <==> tags_error(tags@.map_values(|t: String| t@)) is None,
        r is Err ==> tags_error(tags@.map_values(|t: String| t@)) == Some(r->Err_0@),
{
    let ghost all = tags@.map_values(|t: String| t@);
    let mut i: usize = 0;
    assert(all.skip(0) == all);
    while i < tags.len()
        invariant
            i <= tags.len(),
            all == tags@.map_values(|t: String| t@),
            tags_error(all) == tags_error(all.skip(i as int)),
        decreases tags.len() - i,
    {
        let tag = &tags[i];
        assert(all.skip(i as int)[0] == tag@);
        assert(all.skip(i as int).drop_first() == all.skip(i + 1));
        if is_blank(tag.as_str()) {
            return Err(EntryParseError::EmptyTag);
        }
        if contains_char(tag.as_str(), ',') {
            return Err(EntryParseError::InvalidTagContainsComma { tag: tag.clone() });
        }
        i = i + 1;
    }
    assert(all.skip(i as int).len() == 0);
    Ok(())
}

impl Entry {
    /// An entry with the given stamp and text, no tags and no metadata.
    pub fn new(stamp: Stamp, text: String) -> (e: Entry)
        ensures
            e@ == (EntryView {
                stamp: stamp@,
                body: text@,
                tags: Seq::empty(),
                meta: Seq::empty(),
            }),
    {
        let e = Entry { stamp, body: text, tags: Vec::new(), meta: MetaMap::new() };
        assert(e.tags@.map_values(|t: String| t@) =~= Seq::<Seq<char>>::empty());
        e
    }

    /// Checks the entry invariants: a valid stamp, a non-blank body, and tags that are
    /// neither blank nor hold `,`; the first failure is returned.
    pub fn validate(&self) -> (r: Result<(), EntryParseError>)
        ensures
            r is Ok <==> entry_error(self@) is None,
            r is Err ==> entry_error(self@) == Some(r->Err_0@),
    {
        match self.stamp.validate() {
            Ok(()) => {},
            Err(e) => {
                return Err(e);
            },
        }
        if is_blank(self.body.as_str()) {
            return Err(EntryParseError::EmptyBody);
        }
        tags_validate(&self.tags)
    }

    /// Writes this entry as a one-line record:
    /// `<STAMP>\t<TAGS>\t<BODY>`, followed by `\t<META_JSON>` when there is metadata.
    pub fn to_record(&self) -> (r: String)
        ensures
            r@ == entry_record(self@),
    {
        let stamp = self.stamp.to_record();
        let tags = join_strings(&self.tags, ",");
        let body = escape_field(self.body.as_str());
        let mut out = stamp;
        out.append("\t");
        out.append(tags.as_str());
        out.append("\t");
        out.append(body.as_str());
        proof {
            reveal_strlit("\t");
            reveal_strlit(",");
            assert("\t"@ =~= seq!['\t']);
            assert(","@ =~= seq![',']);
        }
        let ghost e = self@;
        let ghost f3 = seq![stamp_record(e.stamp), join(e.tags, seq![',']), escape(e.body)];
        proof {
            assert(f3.drop_first().drop_first() == seq![escape(e.body)]);
            assert(f3.drop_first() == seq![join(e.tags, seq![',']), escape(e.body)]);
            assert(join(seq![escape(e.body)], seq!['\t']) == escape(e.body));
            assert(join(f3.drop_first(), seq!['\t']) == join(e.tags, seq![',']) + seq!['\t'] + escape(e.body));
            assert(join(f3, seq!['\t']) == stamp_record(e.stamp) + seq!['\t'] + join(f3.drop_first(), seq!['\t']));
        }
        if !self.meta.is_empty() {
            let meta_json = render_json_string_map(self.meta.pairs());
            let meta_field = escape_field(meta_json.as_str());
            out.append("\t");
            out.append(meta_field.as_str());
            proof {
                let f4 = f3.push(escape(json_object(e.meta)));
                assert(f4.drop_first().drop_first().drop_first() == seq![escape(json_object(e.meta))]);
                assert(f4.drop_first().drop_first() == seq![escape(e.body), escape(json_object(e.meta))]);
                assert(join(seq![escape(json_object(e.meta))], seq!['\t']) == escape(json_object(e.meta)));
                assert(join(f4.drop_first().drop_first(), seq!['\t']) == escape(e.body) + seq!['\t'] + escape(json_object(e.meta)));
                assert(f4.drop_first() == seq![join(e.tags, seq![',']), escape(e.body), escape(json_object(e.meta))]);
                assert(join(f4.drop_first(), seq!['\t']) == join(e.tags, seq![',']) + seq!['\t'] + join(f4.drop_first().drop_first(), seq!['\t']));
                assert(join(f4, seq!['\t']) == stamp_record(e.stamp) + seq!['\t'] + join(f4.drop_first(), seq!['\t']));
                assert(record_fields(e) == f4);
            }
        } else {
            assert(record_fields(e) == f3);
        }
        out
    }

    /// Parses a record line: splits it on tabs into stamp, tags, body and optional
    /// metadata, reads each, and checks the entry invariants. A record written by
    /// `to_record` for an entry that is `record_safe` reads back as that entry.
    pub fn from_record(line: &str) -> (r: Result<Entry, EntryParseError>)
        ensures
            entry_result_view(r) == parse_entry(line@),
            forall|e: EntryView|
                record_safe(e) && #[trigger] entry_record(e) == line@ ==> (r is Ok && r->Ok_0@ == e),
    {
        let v = chars_of(line);
        let parts = splitn_chars(v.as_slice(), 4, '\t');
        let ghost sp = splitn(line@, 4, '\t');
        proof {
            lemma_splitn_len(line@, 4, '\t');
            assert forall|e: EntryView| record_safe(e) && #[trigger] entry_record(e) == line@ implies {
                &&& sp.len() >= 3
                &&& sp[0].len() > 0
                &&& parse_stamp(sp[0]) == Ok::<StampView, ParseErr>(e.stamp)
                &&& unescape(sp[2]) == Ok::<Seq<char>, Seq<char>>(e.body)
                &&& (e.meta.len() == 0 <==> sp.len() == 3)
                &&& (e.meta.len() > 0 ==> unescape(sp[3]) == Ok::<Seq<char>, Seq<char>>(json_object(e.meta)))
            } by {
                lemma_record_parts(e);
            }
        }
        if parts.len() < 3 {
            return Err(EntryParseError::InvalidEntryFormat {
                expected: "STAMP<TAB>TAGS<TAB>BODY[<TAB>META_JSON]",
                got: String::from_str(line),
            });
        }
        assert(parts@[0]@ == sp[0]);
        assert(parts@[1]@ == sp[1]);
        assert(parts@[2]@ == sp[2]);
        if parts[0].as_str().is_empty() {
            return Err(EntryParseError::InvalidEntryFormat {
                expected: "non-empty STAMP",
                got: String::from_str(line),
            });
        }
        let stamp = match Stamp::from_record(parts[0].as_str()) {
            Ok(s) => s,
            Err(e) => {
                return Err(e);
            },
        };
        let tags: Vec<String> = if parts[1].as_str().is_empty() {
            let t: Vec<String> = Vec::new();
            assert(t@.map_values(|x: String| x@) =~= Seq::<Seq<char>>::empty());
            t
        } else {
            let tv = chars_of(parts[1].as_str());
            split_chars(tv.as_slice(), ',')
        };
        let body = match unescape_field(parts[2].as_str()) {
            Ok(b) => b,
            Err(reason) => {
                return Err(EntryParseError::InvalidEscape { field: "body", reason });
            },
        };
        let meta = if parts.len() == 3 {
            MetaMap::new()
        } else {
            assert(parts@[3]@ == sp[3]);
            let meta_json = match unescape_field(parts[3].as_str()) {
                Ok(m) => m,
                Err(reason) => {
                    return Err(EntryParseError::InvalidEscape { field: "meta", reason });
                },
            };
            match parse_json_string_map(meta_json.as_str()) {
                Ok(pairs) => {
                    proof {
                        assert forall|e: EntryView| record_safe(e) && #[trigger] entry_record(e) == line@ implies
                            json_string_map(json_object(e.meta)) == Some(e.meta) by {
                            assert(meta_json@ == json_object(e.meta));
                        }
                    }
                    MetaMap::from_sorted_pairs(pairs)
                },
                Err(reason) => {
                    return Err(EntryParseError::InvalidMetaJson { got: meta_json, reason });
                },
            }
        };
        let entry = Entry { stamp, body, tags, meta };
        proof {
            assert forall|e: EntryView| record_safe(e) && #[trigger] entry_record(e) == line@ implies
                parse_entry(line@) == Ok::<EntryView, ParseErr>(e) by {
                lemma_entry_roundtrip(e);
            }
        }
        match entry.validate() {
            Ok(()) => Ok(entry),
            Err(e) => Err(e),
        }
    }
}

} // verus!

verus! {

/// Position of an entry counted from the end of a log (`1` is the last one).
pub struct EntryIndexFromEnd(pub usize);

/// A record is a single line when the parts written unescaped (timestamp, source, tags)
/// hold no newline: the body and metadata are escaped.
pub proof fn lemma_record_one_line(e: EntryView)
    requires
        !e.stamp.timestamp.contains('\n'),
        !source_text(e.stamp.source).contains('\n'),
        none_contains(e.tags, '\n'),
    ensures
        !entry_record(e).contains('\n'),
{
    lemma_level_roundtrip(e.stamp.level);
    assert(!level_text(e.stamp.level).contains('\n')) by {
        let t = level_text(e.stamp.level);
        if t.contains('\n') {
            let k = choose|k: int| 0 <= k < t.len() && t[k] == '\n';
            assert(false);
        }
    }
    let sp = seq![e.stamp.timestamp, level_text(e.stamp.level), source_text(e.stamp.source)];
    assert forall|i: int| 0 <= i < sp.len() implies !(#[trigger] sp[i]).contains('\n') by {}
    lemma_join_without(sp, '|', '\n');
    lemma_join_without(e.tags, ',', '\n');
    lemma_escape_one_line(e.body);
    lemma_escape_one_line(json_object(e.meta));
    let f = record_fields(e);
    assert forall|i: int| 0 <= i < f.len() implies !(#[trigger] f[i]).contains('\n') by {}
    lemma_join_without(f, '\t', '\n');
}

/// A record never ends with a carriage return: it ends with an escaped field, or with the
/// tab before an empty one.
pub proof fn lemma_record_end(e: EntryView)
    ensures
        entry_record(e).len() > 0,
        entry_record(e).last() != '\r',
{
    let f = record_fields(e);
    let init = f.drop_last();
    assert(init.push(f.last()) == f);
    lemma_join_push(init, f.last(), seq!['\t']);
    assert(init.len() >= 2);
    let last = f.last();
    lemma_escape_one_line(e.body);
    lemma_escape_one_line(json_object(e.meta));
    assert(!last.contains('\r'));
    let r = join(init, seq!['\t']) + seq!['\t'] + last;
    if last.len() > 0 {
        assert(r.last() == last.last());
        assert(last.contains(last.last()));
    } else {
        assert(r == join(init, seq!['\t']) + seq!['\t']);
    }
}

/// An entry without metadata is written in the legacy three-field form, and one with
/// metadata in the four-field form.
pub proof fn lemma_record_field_count(e: EntryView)
    requires
        record_safe(e),
    ensures
        e.meta.len() == 0 ==> splitn(entry_record(e), 4, '\t').len() == 3,
        e.meta.len() > 0 ==> splitn(entry_record(e), 4, '\t').len() == 4,
{
    lemma_record_fields_split(e);
}

/// The record layout: a safe entry's record holds, split on tabs, first the stamp (which
/// splits on `|` into the timestamp, the level's name and the source, empty for none), then
/// the tags joined by `,`, then the escaped body, and a fourth field, the escaped metadata
/// JSON, exactly when there is metadata.
pub proof fn lemma_record_layout(e: EntryView)
    requires
        record_safe(e),
    ensures
        ({
            let f = splitn(entry_record(e), 4, '\t');
            &&& f.len() == if e.meta.len() == 0 { 3int } else { 4int }
            &&& splitn(f[0], 3, '|') == seq![e.stamp.timestamp, level_text(e.stamp.level), source_text(e.stamp.source)]
            &&& f[1] == join(e.tags, seq![','])
            &&& unescape(f[2]) == Ok::<Seq<char>, Seq<char>>(e.body)
            &&& e.meta.len() > 0 ==> unescape(f[3]) == Ok::<Seq<char>, Seq<char>>(json_object(e.meta))
        }),
{
    lemma_record_fields_split(e);
    lemma_level_roundtrip(e.stamp.level);
    let sp = seq![e.stamp.timestamp, level_text(e.stamp.level), source_text(e.stamp.source)];
    assert forall|i: int| 0 <= i < sp.len() implies !(#[trigger] sp[i]).contains('|') by {
        if i == 2 {
            match e.stamp.source {
                Some(src) => {},
                None => {
                    assert(sp[2] == Seq::<char>::empty());
                },
            }
        }
    }
    lemma_splitn_join(sp, 3, '|');
    lemma_unescape_escape(e.body);
    lemma_unescape_escape(json_object(e.meta));
}

/// The names levels are written with.
pub proof fn lemma_level_names()
    ensures
        level_text(EntryLevel::DEBUG) == "DEBUG"@,
        level_text(EntryLevel::INFO) == "INFO"@,
        level_text(EntryLevel::WARN) == "WARN"@,
        level_text(EntryLevel::ERROR) == "ERROR"@,
{
    reveal_strlit("DEBUG");
    reveal_strlit("INFO");
    reveal_strlit("WARN");
    reveal_strlit("ERROR");
    assert(level_text(EntryLevel::DEBUG) =~= "DEBUG"@);
    assert(level_text(EntryLevel::INFO) =~= "INFO"@);
    assert(level_text(EntryLevel::WARN) =~= "WARN"@);
    assert(level_text(EntryLevel::ERROR) =~= "ERROR"@);
}

} // verus!
