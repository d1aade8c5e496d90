use vstd::prelude::*;

use crate::domain::entry::{level_text, source_text, EntryLevel, Stamp, StampView};
use crate::domain::meta::MetaMap;
use crate::domain::calendar::civil_date;
use crate::domain::stamp_format::{
    lemma_render_concat, lemma_render_other_parts, lemma_render_utc_parts, rendered_stamp, StampPartView,
};
use crate::number::{decimal, format_padded, parse_i64, parse_i64_spec, IntErrorKind};
use crate::text::{str_eq, trim};
use chrono::TimeZone;

verus! {

/// What a provider gets to compute its value from: the new entry's stamp and the working
/// directory (as text).
#[derive(Debug, Clone, PartialEq, Eq)]
pub struct ProviderContext {
    pub stamp: Stamp,
    pub cwd: String,
}

/// A source of metadata stored in an entry at `bif new` time, known by a stable id.
pub trait StampProvider {
    /// Stable identifier, used in the configuration and as the metadata key.
    fn id(&self) -> &'static str;

    /// The value to store, or why there is none.
    fn compute(&self, ctx: &ProviderContext) -> Result<String, String>;
}

/// The strftime pattern of the `date` provider.
pub open spec fn date_pattern_text() -> Seq<char> {
    "%Y-%m-%d"@
}

/// The strftime pattern of the `datetime` provider.
pub open spec fn datetime_pattern_text() -> Seq<char> {
    "%Y-%m-%dT%H:%M:%S%:z"@
}

/// The pattern the `date` provider hands to chrono.
pub fn date_pattern() -> (p: &'static str)
    ensures
        p@ == date_pattern_text(),
{
    "%Y-%m-%d"
}

/// The pattern the `datetime` provider hands to chrono.
pub fn datetime_pattern() -> (p: &'static str)
    ensures
        p@ == datetime_pattern_text(),
{
    "%Y-%m-%dT%H:%M:%S%:z"
}

/// A character chrono writes for a year, month or day: an ASCII digit, or the `-`
/// between them or before a negative year, or the `+` before a year past 9999.
pub open spec fn date_char(c: char) -> bool {
    ('0' <= c && c <= '9') || c == '-' || c == '+'
}

/// A text of the `date` pattern, in any time zone: date characters only.
pub open spec fn date_shaped(t: Seq<char>) -> bool {
    forall|i: int| 0 <= i < t.len() ==> date_char(#[trigger] t[i])
}

/// A text of the `datetime` pattern, in any time zone: date characters, the `T` between
/// date and time, and the `:` between hours, minutes, seconds and in the offset.
pub open spec fn datetime_shaped(t: Seq<char>) -> bool {
    &&& t.contains('T')
    &&& forall|i: int| 0 <= i < t.len() ==> date_char(#[trigger] t[i]) || t[i] == 'T' || t[i] == ':'
}

/// Epoch seconds well inside chrono's date range (years -262142..=262142): about 253,000
/// years either side of 1970.
pub open spec fn in_chrono_range(secs: int) -> bool {
    -8_000_000_000_000 <= secs <= 8_000_000_000_000
}

/// Epoch seconds at least a day after 0001-01-01T00:00:00Z, so that their local date, under
/// any offset chrono allows, is in year 1 or later.
pub open spec fn from_year_one(secs: int) -> bool {
    secs >= -62135510400
}

/// How chrono writes a year for `%Y`: four digits, zero-padded, for 0..=9999; otherwise a
/// sign and at least four digits.
pub open spec fn year_text(y: int) -> Seq<char> {
    if 0 <= y <= 9999 {
        format_padded(y, 4)
    } else if y > 9999 {
        seq!['+'] + decimal(y as nat)
    } else {
        format_padded(y, 5)
    }
}

/// `%Y-%m-%d` of day `n` after 1970-01-01.
pub open spec fn date_text(n: int) -> Seq<char> {
    let ymd = civil_date(n);
    year_text(ymd.0) + seq!['-'] + format_padded(ymd.1, 2) + seq!['-'] + format_padded(ymd.2, 2)
}

/// `%H:%M:%S` of second `s` of a day.
pub open spec fn time_text(s: int) -> Seq<char> {
    format_padded(s / 3600, 2) + seq![':'] + format_padded((s % 3600) / 60, 2) + seq![':'] + format_padded(s % 60, 2)
}

/// `%:z` of an offset of `off` seconds east of UTC: sign, hours, `:`, minutes, the seconds
/// rounded to the nearest minute.
pub open spec fn offset_text(off: int) -> Seq<char> {
    let a = if off < 0 { -off } else { off };
    let minutes = (a + 30) / 60;
    seq![if off < 0 { '-' } else { '+' }] + format_padded(minutes / 60, 2) + seq![':'] + format_padded(minutes % 60, 2)
}

/// The text of the `date` (`datetime` false) or `datetime` pattern for epoch seconds `ts`
/// in a zone `off` seconds east of UTC: the local time is `ts + off`.
pub open spec fn local_text(ts: int, off: int, datetime: bool) -> Seq<char> {
    let local = ts + off;
    if datetime {
        date_text(local / 86400) + seq!['T'] + time_text(local % 86400) + offset_text(off)
    } else {
        date_text(local / 86400)
    }
}

/// chrono's local rendering of epoch seconds: `Local.timestamp_opt(ts, 0).single()`, then
/// `format(pattern)` for one of the two provider patterns; `None` when chrono finds no
/// single local time, which happens only outside its date range (`TimeZone::timestamp_opt`
/// is `Single` whenever `DateTime::from_timestamp` succeeds). chrono formats the local time
/// `ts + off`, where `off` is the machine's offset for that instant, which `FixedOffset`
/// keeps within a day either way: numeric items write zero-padded digits (a sign before a
/// year outside 0..=9999), `%:z` writes a sign, hours, `:` and minutes, and the rest of each
/// pattern is literal. Which offset applies rests on the machine and is not stated.
/// chrono's lookup of the local offset `expect`s on the time zone data the machine gives;
/// that rests on the machine, not on the arguments.
#[verifier::external_body]
fn local_time_text(ts: i64, pattern: &str) -> (r: Option<String>)
    requires
        pattern@ == date_pattern_text() || pattern@ == datetime_pattern_text(),
    ensures
        in_chrono_range(ts as int) ==> r is Some,
        pattern@ == date_pattern_text() ==> (r matches Some(t) ==> date_shaped(t@)),
        pattern@ == datetime_pattern_text() ==> (r matches Some(t) ==> datetime_shaped(t@)),
        pattern@ == date_pattern_text() && from_year_one(ts as int) ==> (r matches Some(t) ==> exists|off: int|
            -86400 < off < 86400 && t@ == #[trigger] local_text(ts as int, off, false)),
        pattern@ == datetime_pattern_text() && from_year_one(ts as int) ==> (r matches Some(t) ==> exists|off: int|
            -86400 < off < 86400 && t@ == #[trigger] local_text(ts as int, off, true)),
{
    match chrono::Local.timestamp_opt(ts, 0).single() {
        Some(dt) => Some(dt.format(pattern).to_string()),
        None => None,
    }
}

/// The `Display` text of a `ParseIntError` of the given kind.
pub open spec fn int_error_text(k: IntErrorKind) -> Seq<char> {
    match k {
        IntErrorKind::Empty => "cannot parse integer from empty string"@,
        IntErrorKind::InvalidDigit => "invalid digit found in string"@,
        IntErrorKind::PosOverflow => "number too large to fit in target type"@,
        IntErrorKind::NegOverflow => "number too small to fit in target type"@,
    }
}

fn int_error_message(k: IntErrorKind) -> (s: String)
    ensures
        s@ == int_error_text(k),
{
    match k {
        IntErrorKind::Empty => String::from_str("cannot parse integer from empty string"),
        IntErrorKind::InvalidDigit => String::from_str("invalid digit found in string"),
        IntErrorKind::PosOverflow => String::from_str("number too large to fit in target type"),
        IntErrorKind::NegOverflow => String::from_str("number too small to fit in target type"),
    }
}

pub open spec fn invalid_timestamp_text(k: IntErrorKind) -> Seq<char> {
    "invalid timestamp: "@ + int_error_text(k)
}

pub open spec fn out_of_range_text() -> Seq<char> {
    "timestamp out of range"@
}

pub open spec fn result_view(r: Result<String, String>) -> Result<Seq<char>, Seq<char>> {
    match r {
        Ok(v) => Ok(v@),
        Err(e) => Err(e@),
    }
}

/// What holds of the value of the `date` provider (`datetime` false) or of the `datetime`
/// provider, whatever the time zone: an unreadable timestamp gives its parse error; a
/// readable one gives the provider's text of that instant in a zone less than a day from
/// UTC (for instants before year 1, only a text of the provider's shape), or "out of
/// range" (only outside chrono's date range).
pub open spec fn local_value_ok(ts: Seq<char>, datetime: bool, r: Result<Seq<char>, Seq<char>>) -> bool {
    match parse_i64_spec(ts) {
        Err(k) => r == Err::<Seq<char>, Seq<char>>(invalid_timestamp_text(k)),
        Ok(v) => match r {
            Ok(t) => if from_year_one(v) {
                exists|off: int| -86400 < off < 86400 && t == #[trigger] local_text(v, off, datetime)
            } else if datetime {
                datetime_shaped(t)
            } else {
                date_shaped(t)
            },
            Err(e) => e == out_of_range_text() && !in_chrono_range(v),
        },
    }
}

/// The value of a local date or date-time provider, given chrono's text for the
/// timestamp (`None` when chrono finds no single local time for it).
pub fn local_time_value(text: Option<String>) -> (r: Result<String, String>)
    ensures
        match text {
            Some(t) => r is Ok && r->Ok_0@ == t@,
            None => r is Err && r->Err_0@ == out_of_range_text(),
        },
{
    match text {
        Some(s) => Ok(s),
        None => Err(String::from_str("timestamp out of range")),
    }
}

fn compute_local(ctx: &ProviderContext, pattern: &str) -> (r: Result<String, String>)
    requires
        pattern@ == date_pattern_text() || pattern@ == datetime_pattern_text(),
    ensures
        pattern@ == date_pattern_text() ==> local_value_ok(ctx.stamp.timestamp@, false, result_view(r)),
        pattern@ == datetime_pattern_text() ==> local_value_ok(ctx.stamp.timestamp@, true, result_view(r)),
{
    let ts = match parse_i64(ctx.stamp.timestamp.as_str()) {
        Ok(v) => v,
        Err(k) => {
            let mut msg = String::from_str("invalid timestamp: ");
            msg.append(int_error_message(k).as_str());
            return Err(msg);
        },
    };
    local_time_value(local_time_text(ts, pattern))
}

pub struct TimeProvider;

pub struct DateProvider;

pub struct DateTimeProvider;

pub struct LevelProvider;

pub struct SourceProvider;

pub struct CwdProvider;

impl StampProvider for TimeProvider {
    fn id(&self) -> (r: &'static str)
        ensures
            r@ == "time"@,
    {
        "time"
    }

    fn compute(&self, ctx: &ProviderContext) -> (r: Result<String, String>)
        ensures
            r is Ok && r->Ok_0@ == ctx.stamp.timestamp@,
    {
        Ok(ctx.stamp.timestamp.clone())
    }
}

impl StampProvider for DateProvider {
    fn id(&self) -> (r: &'static str)
        ensures
            r@ == "date"@,
    {
        "date"
    }

    fn compute(&self, ctx: &ProviderContext) -> (r: Result<String, String>)
        ensures
            local_value_ok(ctx.stamp.timestamp@, false, result_view(r)),
    {
        compute_local(ctx, date_pattern())
    }
}

impl StampProvider for DateTimeProvider {
    fn id(&self) -> (r: &'static str)
        ensures
            r@ == "datetime"@,
    {
        "datetime"
    }

    fn compute(&self, ctx: &ProviderContext) -> (r: Result<String, String>)
        ensures
            local_value_ok(ctx.stamp.timestamp@, true, result_view(r)),
    {
        compute_local(ctx, datetime_pattern())
    }
}

impl StampProvider for LevelProvider {
    fn id(&self) -> (r: &'static str)
        ensures
            r@ == "level"@,
    {
        "level"
    }

    fn compute(&self, ctx: &ProviderContext) -> (r: Result<String, String>)
        ensures
            r is Ok && r->Ok_0@ == level_text(ctx.stamp.level),
    {
        Ok(String::from_str(ctx.stamp.level.to_record()))
    }
}

impl StampProvider for SourceProvider {
    fn id(&self) -> (r: &'static str)
        ensures
            r@ == "source"@,
    {
        "source"
    }

    fn compute(&self, ctx: &ProviderContext) -> (r: Result<String, String>)
        ensures
            r is Ok && r->Ok_0@ == source_text(ctx.stamp@.source),
    {
        match &ctx.stamp.source {
            Some(s) => Ok(s.clone()),
            None => Ok(String::new()),
        }
    }
}

impl StampProvider for CwdProvider {
    fn id(&self) -> (r: &'static str)
        ensures
            r@ == "cwd"@,
    {
        "cwd"
    }

    fn compute(&self, ctx: &ProviderContext) -> (r: Result<String, String>)
        ensures
            r is Ok && r->Ok_0@ == ctx.cwd@,
    {
        Ok(ctx.cwd.clone())
    }
}

/// The built-in providers.
#[derive(Debug, Clone, Copy, PartialEq, Eq, Structural)]
pub enum Provider {
    Time,
    Date,
    DateTime,
    Level,
    Source,
    Cwd,
}

pub open spec fn provider_id(p: Provider) -> Seq<char> {
    match p {
        Provider::Time => "time"@,
        Provider::Date => "date"@,
        Provider::DateTime => "datetime"@,
        Provider::Level => "level"@,
        Provider::Source => "source"@,
        Provider::Cwd => "cwd"@,
    }
}

/// Whether a provider's value depends on the machine (the local time zone).
pub open spec fn is_local_time(p: Provider) -> bool {
    p == Provider::Date || p == Provider::DateTime
}

/// The value of a provider whose value depends on the context alone.
pub open spec fn fixed_value(p: Provider, ctx: ProviderContextView) -> Seq<char> {
    match p {
        Provider::Time => ctx.stamp.timestamp,
        Provider::Level => level_text(ctx.stamp.level),
        Provider::Source => source_text(ctx.stamp.source),
        _ => ctx.cwd,
    }
}

pub struct ProviderContextView {
    pub stamp: StampView,
    pub cwd: Seq<char>,
}

impl View for ProviderContext {
    type V = ProviderContextView;

    open spec fn view(&self) -> ProviderContextView {
        ProviderContextView { stamp: self.stamp@, cwd: self.cwd@ }
    }
}

impl StampProvider for Provider {
    fn id(&self) -> (r: &'static str)
        ensures
            r@ == provider_id(*self),
    {
        match self {
            Provider::Time => TimeProvider.id(),
            Provider::Date => DateProvider.id(),
            Provider::DateTime => DateTimeProvider.id(),
            Provider::Level => LevelProvider.id(),
            Provider::Source => SourceProvider.id(),
            Provider::Cwd => CwdProvider.id(),
        }
    }

    fn compute(&self, ctx: &ProviderContext) -> (r: Result<String, String>)
        ensures
            *self == Provider::Date ==> local_value_ok(ctx.stamp.timestamp@, false, result_view(r)),
            *self == Provider::DateTime ==> local_value_ok(ctx.stamp.timestamp@, true, result_view(r)),
            !is_local_time(*self) ==> r is Ok && r->Ok_0@ == fixed_value(*self, ctx@),
    {
        match self {
            Provider::Time => TimeProvider.compute(ctx),
            Provider::Date => DateProvider.compute(ctx),
            Provider::DateTime => DateTimeProvider.compute(ctx),
            Provider::Level => LevelProvider.compute(ctx),
            Provider::Source => SourceProvider.compute(ctx),
            Provider::Cwd => CwdProvider.compute(ctx),
        }
    }
}

/// The first provider in `providers` with the given id.
pub open spec fn provider_for(providers: Seq<Provider>, id: Seq<char>) -> Option<Provider>
    decreases providers.len(),
{
    if providers.len() == 0 {
        None
    } else if provider_id(providers[0]) == id {
        Some(providers[0])
    } else {
        provider_for(providers.drop_first(), id)
    }
}

proof fn lemma_provider_for_id(providers: Seq<Provider>, id: Seq<char>)
    ensures
        provider_for(providers, id) matches Some(p) ==> provider_id(p) == id,
    decreases providers.len(),
{
    if providers.len() > 0 {
        lemma_provider_for_id(providers.drop_first(), id);
    }
}

/// The set of providers `bif new` can run, looked up by id.
pub struct Registry {
    providers: Vec<Provider>,
}

pub open spec fn default_providers() -> Seq<Provider> {
    seq![Provider::Time, Provider::Date, Provider::DateTime, Provider::Level, Provider::Source, Provider::Cwd]
}

/// The value provider `p` gives in a context, given what the `date` and `datetime`
/// providers gave.
pub open spec fn provider_value(
    p: Provider,
    ctx: ProviderContextView,
    date: Result<Seq<char>, Seq<char>>,
    datetime: Result<Seq<char>, Seq<char>>,
) -> Result<Seq<char>, Seq<char>> {
    match p {
        Provider::Date => date,
        Provider::DateTime => datetime,
        _ => Ok(fixed_value(p, ctx)),
    }
}

/// The metadata value under key `k` for the ids asked for: the value of the provider with
/// id `k`, when `k` was asked for, names a provider, and that provider succeeds.
pub open spec fn meta_value(
    providers: Seq<Provider>,
    ids: Seq<Seq<char>>,
    ctx: ProviderContextView,
    date: Result<Seq<char>, Seq<char>>,
    datetime: Result<Seq<char>, Seq<char>>,
    k: Seq<char>,
) -> Option<Seq<char>> {
    if ids.contains(k) {
        match provider_for(providers, k) {
            Some(p) => match provider_value(p, ctx, date, datetime) {
                Ok(v) => Some(v),
                Err(_) => None,
            },
            None => None,
        }
    } else {
        None
    }
}

/// `m` holds exactly the metadata values for the ids asked for.
pub open spec fn meta_exact(
    providers: Seq<Provider>,
    ids: Seq<Seq<char>>,
    ctx: ProviderContextView,
    date: Result<Seq<char>, Seq<char>>,
    datetime: Result<Seq<char>, Seq<char>>,
    m: MetaMap,
) -> bool {
    forall|k: Seq<char>| #[trigger] m.spec_get(k) == meta_value(providers, ids, ctx, date, datetime, k)
}

/// The ids as texts.
pub open spec fn ids_view(ids: Seq<String>) -> Seq<Seq<char>> {
    ids.map_values(|s: String| s@)
}

/// The value of a readable timestamp (0 for an unreadable one).
pub open spec fn ts_value(ts: Seq<char>) -> int {
    match parse_i64_spec(ts) {
        Ok(v) => v,
        Err(_) => 0,
    }
}

/// A value the `date` (`datetime` false) or `datetime` provider may give for a timestamp.
pub open spec fn some_local_value(ts: Seq<char>, datetime: bool) -> Result<Seq<char>, Seq<char>> {
    match parse_i64_spec(ts) {
        Err(k) => Err(invalid_timestamp_text(k)),
        Ok(v) => if from_year_one(v) && in_chrono_range(v) {
            Ok(local_text(v, 0, datetime))
        } else if in_chrono_range(v) {
            Ok(if datetime { seq!['T'] } else { Seq::empty() })
        } else {
            Err(out_of_range_text())
        },
    }
}

fn ids_contain(ids: &Vec<String>, id: &str) -> (b: bool)
    ensures
        b == ids@.map_values(|s: String| s@).contains(id@),
{
    let ghost all = ids@.map_values(|s: String| s@);
    let mut i: usize = 0;
    while i < ids.len()
        invariant
            i <= ids.len(),
            all == ids@.map_values(|s: String| s@),
            forall|j: int| 0 <= j < i ==> all[j] != id@,
        decreases ids.len() - i,
    {
        if str_eq(ids[i].as_str(), id) {
            assert(all[i as int] == id@);
            return true;
        }
        i = i + 1;
    }
    false
}

fn clone_result(r: &Result<String, String>) -> (c: Result<String, String>)
    ensures
        result_view(c) == result_view(*r),
{
    match r {
        Ok(v) => Ok(v.clone()),
        Err(e) => Err(e.clone()),
    }
}

impl View for Registry {
    type V = Seq<Provider>;

    closed spec fn view(&self) -> Seq<Provider> {
        self.providers@
    }
}

impl Registry {
    /// The registry of the built-in providers: time, date, datetime, level, source, cwd.
    pub fn default() -> (r: Self)
        ensures
            r@ == default_providers(),
    {
        let r = Self {
            providers: vec![
                Provider::Time,
                Provider::Date,
                Provider::DateTime,
                Provider::Level,
                Provider::Source,
                Provider::Cwd,
            ],
        };
        assert(r@ =~= default_providers());
        r
    }

    /// The first provider with the given id.
    pub fn get(&self, id: &str) -> (r: Option<Provider>)
        ensures
            r == provider_for(self@, id@),
    {
        let mut i: usize = 0;
        assert(self.providers@.skip(0) == self.providers@);
        while i < self.providers.len()
            invariant
                i <= self.providers.len(),
                provider_for(self@, id@) == provider_for(self.providers@.skip(i as int), id@),
            decreases self.providers.len() - i,
        {
            let p = self.providers[i];
            assert(self.providers@.skip(i as int)[0] == p);
            assert(self.providers@.skip(i as int).drop_first() == self.providers@.skip(i + 1));
            if str_eq(p.id(), id) {
                return Some(p);
            }
            i = i + 1;
        }
        None
    }

    /// The metadata for `ids`, given what the `date` and `datetime` providers gave: each
    /// id asked for that names a provider maps to that provider's value, when it succeeds.
    pub fn meta_for_ids_given(
        &self,
        ids: &Vec<String>,
        ctx: &ProviderContext,
        date: &Result<String, String>,
        datetime: &Result<String, String>,
    ) -> (m: MetaMap)
        ensures
            meta_exact(self@, ids@.map_values(|s: String| s@), ctx@, result_view(*date), result_view(*datetime), m),
    {
        let ghost all = ids@.map_values(|s: String| s@);
        let ghost d = result_view(*date);
        let ghost dt = result_view(*datetime);
        let mut out = MetaMap::new();
        let mut i: usize = 0;
        while i < ids.len()
            invariant
                i <= ids.len(),
                all == ids@.map_values(|s: String| s@),
                d == result_view(*date),
                dt == result_view(*datetime),
                meta_exact(self@, all.take(i as int), ctx@, d, dt, out),
            decreases ids.len() - i,
        {
            let ghost before = out;
            let id = &ids[i];
            let ghost prefix = all.take(i as int);
            let ghost next = all.take(i + 1);
            assert(next == prefix.push(id@));
            match self.get(id.as_str()) {
                None => {},
                Some(p) => {
                    proof {
                        lemma_provider_for_id(self@, id@);
                    }
                    let value = match p {
                        Provider::Date => clone_result(date),
                        Provider::DateTime => clone_result(datetime),
                        _ => p.compute(ctx),
                    };
                    assert(result_view(value) == provider_value(p, ctx@, d, dt));
                    match value {
                        Ok(v) => {
                            out.insert(String::from_str(p.id()), v);
                        },
                        Err(_) => {},
                    }
                },
            }
            proof {
                assert forall|k: Seq<char>| #[trigger] out.spec_get(k) == meta_value(self@, next, ctx@, d, dt, k) by {
                    assert(next.contains(k) <==> (prefix.contains(k) || k == id@)) by {
                        if next.contains(k) {
                            let j = choose|j: int| 0 <= j < next.len() && next[j] == k;
                            if j < prefix.len() {
                                assert(prefix[j] == k);
                            }
                        }
                        if prefix.contains(k) {
                            let j = choose|j: int| 0 <= j < prefix.len() && prefix[j] == k;
                            assert(next[j] == k);
                        }
                        if k == id@ {
                            assert(next[i as int] == k);
                        }
                    }
                    assert(before.spec_get(k) == meta_value(self@, prefix, ctx@, d, dt, k));
                }
            }
            i = i + 1;
        }
        assert(all.take(ids.len() as int) == all);
        out
    }

    /// Runs the providers named by `ids` and maps each one's id to its value. Unknown ids
    /// are skipped, and so are providers that fail. The `date` and `datetime` values are
    /// chrono's, in the machine's time zone: each is one the provider may give.
    pub fn compute_meta_for_ids(&self, ids: &Vec<String>, ctx: &ProviderContext) -> (m: MetaMap)
        ensures
            exists|date: Result<Seq<char>, Seq<char>>, datetime: Result<Seq<char>, Seq<char>>|
                local_value_ok(ctx@.stamp.timestamp, false, date) && local_value_ok(ctx@.stamp.timestamp, true, datetime)
                    && #[trigger] meta_exact(self@, ids_view(ids@), ctx@, date, datetime, m),
    {
        let ghost all = ids_view(ids@);
        let ghost ts = ctx@.stamp.timestamp;
        let asks_date = ids_contain(ids, "date");
        let date = if asks_date { DateProvider.compute(ctx) } else { Err(String::new()) };
        let asks_datetime = ids_contain(ids, "datetime");
        let datetime = if asks_datetime { DateTimeProvider.compute(ctx) } else { Err(String::new()) };
        let m = self.meta_for_ids_given(ids, ctx, &date, &datetime);
        proof {
            let d = if asks_date { result_view(date) } else { some_local_value(ts, false) };
            let dt = if asks_datetime { result_view(datetime) } else { some_local_value(ts, true) };
            assert(seq!['T'].contains('T')) by {
                assert(seq!['T'][0] == 'T');
            }
            assert(local_text(ts_value(ts), 0, false) == local_text(ts_value(ts), 0, false));
            assert(local_text(ts_value(ts), 0, true) == local_text(ts_value(ts), 0, true));
            assert(local_value_ok(ts, false, d));
            assert(local_value_ok(ts, true, dt));
            assert forall|k: Seq<char>| #[trigger] m.spec_get(k) == meta_value(self@, all, ctx@, d, dt, k) by {
                assert(m.spec_get(k) == meta_value(self@, all, ctx@, result_view(date), result_view(datetime), k));
                lemma_provider_for_id(self@, k);
                reveal_strlit("date");
                reveal_strlit("datetime");
            }
            assert(meta_exact(self@, all, ctx@, d, dt, m));
        }
        m
    }
}

/// The `date` provider asks chrono for `%Y-%m-%d`: the year (`%Y`), then the month number
/// (`%m`), then the day of the month (`%d`), joined by `-`.
pub proof fn lemma_date_pattern()
    ensures
        date_pattern_text() =~= seq!['%', 'Y', '-', '%', 'm', '-', '%', 'd'],
{
    reveal_strlit("%Y-%m-%d");
}

/// The `datetime` provider asks chrono for the date pattern, a `T`, then the hours (`%H`),
/// minutes (`%M`) and seconds (`%S`) joined by `:`, then the offset as `±HH:MM` (`%:z`).
pub proof fn lemma_datetime_pattern()
    ensures
        datetime_pattern_text() =~= date_pattern_text()
            + seq!['T', '%', 'H', ':', '%', 'M', ':', '%', 'S', '%', ':', 'z'],
{
    reveal_strlit("%Y-%m-%d");
    reveal_strlit("%Y-%m-%dT%H:%M:%S%:z");
}

/// What the built-in registry stores for each id asked for: `time` the timestamp, `level`
/// the level's name, `source` the source (empty for none), `cwd` the working directory,
/// `date` and `datetime` what those providers gave, when they succeeded; any other id
/// nothing, and no id that was not asked for.
pub proof fn lemma_default_registry_values(
    ids: Seq<Seq<char>>,
    ctx: ProviderContextView,
    date: Result<Seq<char>, Seq<char>>,
    datetime: Result<Seq<char>, Seq<char>>,
    k: Seq<char>,
)
    ensures
        ({
            let m = meta_value(default_providers(), ids, ctx, date, datetime, k);
            &&& !ids.contains(k) ==> m is None
            &&& ids.contains(k) && k == "time"@ ==> m == Some(ctx.stamp.timestamp)
            &&& ids.contains(k) && k == "level"@ ==> m == Some(level_text(ctx.stamp.level))
            &&& ids.contains(k) && k == "source"@ ==> m == Some(source_text(ctx.stamp.source))
            &&& ids.contains(k) && k == "cwd"@ ==> m == Some(ctx.cwd)
            &&& ids.contains(k) && k == "date"@ ==> m == match date {
                Ok(v) => Some(v),
                Err(_) => None,
            }
            &&& ids.contains(k) && k == "datetime"@ ==> m == match datetime {
                Ok(v) => Some(v),
                Err(_) => None,
            }
            &&& k != "time"@ && k != "level"@ && k != "source"@ && k != "cwd"@ && k != "date"@ && k != "datetime"@
                ==> m is None
        }),
{
    reveal_strlit("time");
    reveal_strlit("date");
    reveal_strlit("datetime");
    reveal_strlit("level");
    reveal_strlit("source");
    reveal_strlit("cwd");
    reveal_with_fuel(provider_for, 7);
    let p = default_providers();
    assert(p[0] == Provider::Time);
    assert(p.drop_first()[0] == Provider::Date);
    assert(p.drop_first().drop_first()[0] == Provider::DateTime);
    assert(p.drop_first().drop_first().drop_first()[0] == Provider::Level);
    assert(p.drop_first().drop_first().drop_first().drop_first()[0] == Provider::Source);
    assert(p.drop_first().drop_first().drop_first().drop_first().drop_first()[0] == Provider::Cwd);
    assert(p.drop_first().drop_first().drop_first().drop_first().drop_first().drop_first().len() == 0);
    assert("time"@.len() == 4 && "time"@[0] == 't');
    assert("date"@.len() == 4 && "date"@[0] == 'd');
    assert("datetime"@.len() == 8 && "datetime"@[0] == 'd');
    assert("level"@.len() == 5 && "level"@[0] == 'l');
    assert("source"@.len() == 6 && "source"@[0] == 's');
    assert("cwd"@.len() == 3 && "cwd"@[0] == 'c');
    if k == "time"@ {
        assert(provider_for(p, k) == Some(Provider::Time));
    } else if k == "date"@ {
        assert(provider_for(p, k) == Some(Provider::Date));
    } else if k == "datetime"@ {
        assert(provider_for(p, k) == Some(Provider::DateTime));
    } else if k == "level"@ {
        assert(provider_for(p, k) == Some(Provider::Level));
    } else if k == "source"@ {
        assert(provider_for(p, k) == Some(Provider::Source));
    } else if k == "cwd"@ {
        assert(provider_for(p, k) == Some(Provider::Cwd));
    } else {
        assert(provider_for(p, k) is None);
    }
}

/// In UTC, the `date` provider writes a stamp's date as the layout `YYYY-MM-DD` of
/// `render_stamp` shows it, and the `datetime` provider writes the layout
/// `YYYY-MM-DDTHH:MM:SS` followed by the offset `+00:00`: year, month and day of the date,
/// then hours, minutes and seconds of the time, of the timestamp's epoch seconds `v` (for
/// years up to 9999, which both write with four digits).
pub proof fn lemma_utc_values_match_layout(st: StampView, v: int)
    requires
        parse_i64_spec(trim(st.timestamp)) == Ok::<int, IntErrorKind>(v),
        v >= 0,
        civil_date(v / 86400).0 <= 9999,
    ensures
        local_text(v, 0, false) == rendered_stamp(st, seq![
            StampPartView::DateYYYY,
            StampPartView::Literal("-"@),
            StampPartView::DateMM,
            StampPartView::Literal("-"@),
            StampPartView::DateDD,
        ]),
        local_text(v, 0, true) == rendered_stamp(st, seq![
            StampPartView::DateYYYY,
            StampPartView::Literal("-"@),
            StampPartView::DateMM,
            StampPartView::Literal("-"@),
            StampPartView::DateDD,
            StampPartView::Literal("T"@),
            StampPartView::TimeHH,
            StampPartView::Literal(":"@),
            StampPartView::TimeMM,
            StampPartView::Literal(":"@),
            StampPartView::TimeSS,
        ]) + "+00:00"@,
{
    lemma_render_utc_parts(st, v);
    let ymd = civil_date(v / 86400);
    crate::domain::calendar::lemma_era_date(v / 86400);
    assert(ymd.0 >= 1);
    let a1 = seq![StampPartView::DateYYYY];
    let a2 = seq![StampPartView::Literal("-"@)];
    let a3 = seq![StampPartView::DateMM];
    let a5 = seq![StampPartView::DateDD];
    let a6 = seq![StampPartView::Literal("T"@)];
    let a7 = seq![StampPartView::TimeHH];
    let a8 = seq![StampPartView::Literal(":"@)];
    let a9 = seq![StampPartView::TimeMM];
    let a11 = seq![StampPartView::TimeSS];
    lemma_render_other_parts(st, "-"@);
    lemma_render_other_parts(st, "T"@);
    lemma_render_other_parts(st, ":"@);
    lemma_render_concat(st, a1, a2);
    lemma_render_concat(st, a1 + a2, a3);
    lemma_render_concat(st, a1 + a2 + a3, a2);
    lemma_render_concat(st, a1 + a2 + a3 + a2, a5);
    let d = a1 + a2 + a3 + a2 + a5;
    lemma_render_concat(st, d, a6);
    lemma_render_concat(st, d + a6, a7);
    lemma_render_concat(st, d + a6 + a7, a8);
    lemma_render_concat(st, d + a6 + a7 + a8, a9);
    lemma_render_concat(st, d + a6 + a7 + a8 + a9, a8);
    lemma_render_concat(st, d + a6 + a7 + a8 + a9 + a8, a11);
    assert(d =~= seq![
        StampPartView::DateYYYY,
        StampPartView::Literal("-"@),
        StampPartView::DateMM,
        StampPartView::Literal("-"@),
        StampPartView::DateDD,
    ]);
    assert(d + a6 + a7 + a8 + a9 + a8 + a11 =~= seq![
        StampPartView::DateYYYY,
        StampPartView::Literal("-"@),
        StampPartView::DateMM,
        StampPartView::Literal("-"@),
        StampPartView::DateDD,
        StampPartView::Literal("T"@),
        StampPartView::TimeHH,
        StampPartView::Literal(":"@),
        StampPartView::TimeMM,
        StampPartView::Literal(":"@),
        StampPartView::TimeSS,
    ]);
    reveal_strlit("-");
    reveal_strlit("T");
    reveal_strlit(":");
    reveal_strlit("+00:00");
    assert(date_text(v / 86400) =~= rendered_stamp(st, d));
    vstd::arithmetic::div_mod::lemma_mod_mod(v, 3600, 24);
    vstd::arithmetic::div_mod::lemma_mod_mod(v, 60, 1440);
    assert(time_text(v % 86400) == format_padded((v % 86400) / 3600, 2) + ":"@
        + format_padded((v % 3600) / 60, 2) + ":"@ + format_padded(v % 60, 2));
    assert(format_padded(0, 2) =~= seq!['0', '0']);
    assert(offset_text(0) =~= "+00:00"@);
    assert(local_text(v, 0, true) =~= rendered_stamp(st, d + a6 + a7 + a8 + a9 + a8 + a11) + "+00:00"@);
}

} // verus!
