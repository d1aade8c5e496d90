use vstd::prelude::*;

use crate::domain::calendar::{
    civil_date, era_days_before, era_year_of, lemma_era_bounds, lemma_era_date, march_month_of,
    march_month_start,
};
use crate::domain::entry::{level_text, source_text, EntryLevel, Stamp, StampView};
use crate::number::{format_padded, parse_i64, parse_i64_spec, push_padded, IntErrorKind};
use crate::text::{trim, trim_str};

verus! {

/// One piece of a human-facing stamp layout.
#[derive(Debug, Clone, PartialEq, Eq)]
pub enum StampPart {
    Literal(String),
    TimeHH,
    TimeMM,
    TimeSS,
    DateDD,
    DateMM,
    DateYYYY,
    Level,
    Source,
}

pub enum StampPartView {
    Literal(Seq<char>),
    TimeHH,
    TimeMM,
    TimeSS,
    DateDD,
    DateMM,
    DateYYYY,
    Level,
    Source,
}

impl View for StampPart {
    type V = StampPartView;

    open spec fn view(&self) -> StampPartView {
        match self {
            StampPart::Literal(s) => StampPartView::Literal(s@),
            StampPart::TimeHH => StampPartView::TimeHH,
            StampPart::TimeMM => StampPartView::TimeMM,
            StampPart::TimeSS => StampPartView::TimeSS,
            StampPart::DateDD => StampPartView::DateDD,
            StampPart::DateMM => StampPartView::DateMM,
            StampPart::DateYYYY => StampPartView::DateYYYY,
            StampPart::Level => StampPartView::Level,
            StampPart::Source => StampPartView::Source,
        }
    }
}

/// How a stamp is shown to people; the stored record format does not change.
#[derive(Debug, Clone, PartialEq, Eq)]
pub struct StampFormat {
    pub parts: Vec<StampPart>,
}

pub open spec fn parts_view(parts: Seq<StampPart>) -> Seq<StampPartView> {
    parts.map_values(|p: StampPart| p@)
}

impl View for StampFormat {
    type V = Seq<StampPartView>;

    open spec fn view(&self) -> Seq<StampPartView> {
        parts_view(self.parts@)
    }
}

/// `[YYYY-MM-DD HH:MM:SS] LEVEL`.
pub open spec fn default_pretty_parts() -> Seq<StampPartView> {
    seq![
        StampPartView::Literal("["@),
        StampPartView::DateYYYY,
        StampPartView::Literal("-"@),
        StampPartView::DateMM,
        StampPartView::Literal("-"@),
        StampPartView::DateDD,
        StampPartView::Literal(" "@),
        StampPartView::TimeHH,
        StampPartView::Literal(":"@),
        StampPartView::TimeMM,
        StampPartView::Literal(":"@),
        StampPartView::TimeSS,
        StampPartView::Literal("] "@),
        StampPartView::Level,
    ]
}

impl StampFormat {
    pub fn new(parts: Vec<StampPart>) -> (f: Self)
        ensures
            f.parts@ == parts@,
    {
        Self { parts }
    }

    /// The default layout of pretty output: date, time and level.
    pub fn default_pretty() -> (f: Self)
        ensures
            f@ == default_pretty_parts(),
    {
        let parts = vec![
            StampPart::Literal(String::from_str("[")),
            StampPart::DateYYYY,
            StampPart::Literal(String::from_str("-")),
            StampPart::DateMM,
            StampPart::Literal(String::from_str("-")),
            StampPart::DateDD,
            StampPart::Literal(String::from_str(" ")),
            StampPart::TimeHH,
            StampPart::Literal(String::from_str(":")),
            StampPart::TimeMM,
            StampPart::Literal(String::from_str(":")),
            StampPart::TimeSS,
            StampPart::Literal(String::from_str("] ")),
            StampPart::Level,
        ];
        let f = Self { parts };
        assert(f@ =~= default_pretty_parts());
        f
    }
}

/// Calendar date and time of day, in UTC.
#[derive(Debug, Clone, Copy)]
pub struct UtcParts {
    pub yyyy: i32,
    pub mo: u32,
    pub dd: u32,
    pub hh: u32,
    pub mm: u32,
    pub ss: u32,
}

/// The UTC date and time of `secs` seconds after the epoch; `None` before the epoch, and
/// `None` when the year does not fit in an `i32`.
pub open spec fn utc_of(secs: int) -> Option<UtcParts> {
    if secs < 0 {
        None
    } else {
        let ymd = civil_date(secs / 86400);
        let rem = secs % 86400;
        if ymd.0 > i32::MAX {
            None
        } else {
            Some(UtcParts {
                yyyy: ymd.0 as i32,
                mo: ymd.1 as u32,
                dd: ymd.2 as u32,
                hh: (rem / 3600) as u32,
                mm: ((rem % 3600) / 60) as u32,
                ss: (rem % 60) as u32,
            })
        }
    }
}

/// The date and time a stamp's timestamp stands for, when it is a whole number of
/// seconds (surrounding whitespace ignored) not before the epoch.
pub open spec fn stamp_utc(st: StampView) -> Option<UtcParts> {
    match parse_i64_spec(trim(st.timestamp)) {
        Ok(v) => utc_of(v),
        Err(_) => None,
    }
}

/// A two-digit field, or the raw timestamp when there is no date.
pub open spec fn two_digits_or_raw(v: Option<u32>, raw: Seq<char>) -> Seq<char> {
    match v {
        Some(x) => format_padded(x as int, 2),
        None => raw,
    }
}

pub open spec fn render_part(p: StampPartView, st: StampView, dt: Option<UtcParts>) -> Seq<char> {
    match p {
        StampPartView::Literal(s) => s,
        StampPartView::TimeHH => two_digits_or_raw(if dt is Some { Some(dt->0.hh) } else { None }, st.timestamp),
        StampPartView::TimeMM => two_digits_or_raw(if dt is Some { Some(dt->0.mm) } else { None }, st.timestamp),
        StampPartView::TimeSS => two_digits_or_raw(if dt is Some { Some(dt->0.ss) } else { None }, st.timestamp),
        StampPartView::DateDD => two_digits_or_raw(if dt is Some { Some(dt->0.dd) } else { None }, st.timestamp),
        StampPartView::DateMM => two_digits_or_raw(if dt is Some { Some(dt->0.mo) } else { None }, st.timestamp),
        StampPartView::DateYYYY => match dt {
            Some(d) => format_padded(d.yyyy as int, 4),
            None => st.timestamp,
        },
        StampPartView::Level => level_text(st.level),
        StampPartView::Source => source_text(st.source),
    }
}

pub open spec fn render_parts(parts: Seq<StampPartView>, st: StampView, dt: Option<UtcParts>) -> Seq<char>
    decreases parts.len(),
{
    if parts.len() == 0 {
        Seq::empty()
    } else {
        render_parts(parts.drop_last(), st, dt) + render_part(parts.last(), st, dt)
    }
}

/// The text `render_stamp` shows for a stamp in a layout.
pub open spec fn rendered_stamp(st: StampView, fmt: Seq<StampPartView>) -> Seq<char> {
    render_parts(fmt, st, stamp_utc(st))
}

/// The calendar date (year, month 1..=12, day) of day `days_since_unix_epoch` after
/// 1970-01-01, by Howard Hinnant's algorithm; `None` when the year does not fit in an
/// `i32`.
fn civil_from_days(days_since_unix_epoch: u64) -> (r: Option<(i32, u32, u32)>)
    requires
        days_since_unix_epoch <= i64::MAX - 719468,
    ensures
        r == if civil_date(days_since_unix_epoch as int).0 > i32::MAX {
            None
        } else {
            Some((
                civil_date(days_since_unix_epoch as int).0 as i32,
                civil_date(days_since_unix_epoch as int).1 as u32,
                civil_date(days_since_unix_epoch as int).2 as u32,
            ))
        },
{
    let ghost n = days_since_unix_epoch as int;
    proof {
        lemma_era_date(n);
        lemma_era_bounds(n);
    }
    // Days since 0000-03-01, so that the leap day closes each year.
    let z: i64 = (days_since_unix_epoch as i64) + 719468;
    assert(z == n + 719468);
    let era = (if z >= 0 { z } else { z - 146096 }) / 146097;
    assert(era == (n + 719468) / 146097);
    let doe = z - era * 146097;
    let yoe = (doe - doe / 1460 + doe / 36524 - doe / 146096) / 365;
    assert(yoe == era_year_of(doe as int));
    let y = yoe + era * 400;
    let doy = doe - (365 * yoe + yoe / 4 - yoe / 100);
    assert(doy == doe - era_days_before(yoe as int));
    let mp = (5 * doy + 2) / 153;
    assert(mp == march_month_of(doy as int));
    let d = doy - (153 * mp + 2) / 5 + 1;
    assert(d == doy - march_month_start(mp as int) + 1);
    let m = mp + if mp < 10 { 3 } else { -9 };
    let year: i32 = (y + if m <= 2 { 1 } else { 0 }).try_into().ok()?;
    let month: u32 = (m as i64).try_into().ok()?;
    let day: u32 = (d as i64).try_into().ok()?;
    Some((year, month, day))
}

/// The UTC date and time of `secs` seconds after the epoch; `None` before the epoch.
fn epoch_seconds_to_utc_components(secs: i64) -> (r: Option<UtcParts>)
    ensures
        r == utc_of(secs as int),
{
    if secs < 0 {
        return None;
    }
    let secs_u: u64 = secs.try_into().ok()?;
    let days = secs_u / 86400;
    let rem = secs_u % 86400;
    let hh = (rem / 3600) as u32;
    let mm = ((rem % 3600) / 60) as u32;
    let ss = (rem % 60) as u32;
    let (yyyy, mo, dd) = civil_from_days(days)?;
    Some(UtcParts { yyyy, mo, dd, hh, mm, ss })
}

fn entry_level_to_str(level: &EntryLevel) -> (r: &'static str)
    ensures
        r@ == level_text(*level),
{
    level.to_record()
}

fn push_time(out: &mut String, v: Option<u32>, raw_ts: &str)
    ensures
        final(out)@ == old(out)@ + two_digits_or_raw(v, raw_ts@),
{
    match v {
        Some(x) => push_padded(out, x as i64, 2),
        None => out.append(raw_ts),
    }
}

fn push_date(out: &mut String, v: Option<u32>, raw_ts: &str)
    ensures
        final(out)@ == old(out)@ + two_digits_or_raw(v, raw_ts@),
{
    match v {
        Some(x) => push_padded(out, x as i64, 2),
        None => out.append(raw_ts),
    }
}

/// Renders a stamp in a layout. Date and time parts are those of the timestamp read as
/// UTC epoch seconds; when it is not such a number, each of them shows the raw timestamp.
pub fn render_stamp(stamp: &Stamp, fmt: &StampFormat) -> (out: String)
    ensures
        out@ == rendered_stamp(stamp@, fmt@),
{
    let trimmed = trim_str(stamp.timestamp.as_str());
    let dt = match parse_i64(trimmed.as_str()) {
        Ok(v) => epoch_seconds_to_utc_components(v),
        Err(_) => None,
    };
    assert(dt == stamp_utc(stamp@));
    let ghost st = stamp@;
    let ghost all = fmt@;
    let mut out = String::new();
    let mut i: usize = 0;
    while i < fmt.parts.len()
        invariant
            i <= fmt.parts.len(),
            st == stamp@,
            all == fmt@,
            dt == stamp_utc(st),
            out@ == render_parts(all.take(i as int), st, dt),
        decreases fmt.parts.len() - i,
    {
        let raw = stamp.timestamp.as_str();
        match &fmt.parts[i] {
            StampPart::Literal(s) => out.append(s.as_str()),
            StampPart::TimeHH => push_time(&mut out, match dt { Some(d) => Some(d.hh), None => None }, raw),
            StampPart::TimeMM => push_time(&mut out, match dt { Some(d) => Some(d.mm), None => None }, raw),
            StampPart::TimeSS => push_time(&mut out, match dt { Some(d) => Some(d.ss), None => None }, raw),
            StampPart::DateDD => push_date(&mut out, match dt { Some(d) => Some(d.dd), None => None }, raw),
            StampPart::DateMM => push_date(&mut out, match dt { Some(d) => Some(d.mo), None => None }, raw),
            StampPart::DateYYYY => match dt {
                Some(d) => push_padded(&mut out, d.yyyy as i64, 4),
                None => out.append(raw),
            },
            StampPart::Level => out.append(entry_level_to_str(&stamp.level)),
            StampPart::Source => match &stamp.source {
                Some(src) => out.append(src.as_str()),
                None => {},
            },
        }
        proof {
            assert(all.take(i + 1).drop_last() == all.take(i as int));
            assert(all.take(i + 1).last() == fmt.parts@[i as int]@);
        }
        i = i + 1;
    }
    assert(all.take(fmt.parts.len() as int) == all);
    out
}

/// The calendar parts of day `n` after 1970-01-01 (for `n >= 0`) are a real date.
proof fn lemma_civil_date_bounds(n: int)
    requires
        n >= 0,
    ensures
        civil_date(n).0 >= 1,
        1 <= civil_date(n).1 <= 12,
        1 <= civil_date(n).2 <= 31,
{
    lemma_era_date(n);
}

/// The time parts of a layout show the UTC hours, minutes and seconds of the timestamp's
/// epoch seconds `v` (`(v % 86400) / 3600`, `(v % 3600) / 60`, `v % 60`, two digits each),
/// and the date parts the year (four digits), month and day of the UTC date `v / 86400`
/// days after 1970-01-01.
pub proof fn lemma_render_utc_parts(st: StampView, v: int)
    requires
        parse_i64_spec(trim(st.timestamp)) == Ok::<int, IntErrorKind>(v),
        v >= 0,
        civil_date(v / 86400).0 <= i32::MAX,
    ensures
        rendered_stamp(st, seq![StampPartView::TimeHH]) == format_padded((v % 86400) / 3600, 2),
        rendered_stamp(st, seq![StampPartView::TimeMM]) == format_padded((v % 3600) / 60, 2),
        rendered_stamp(st, seq![StampPartView::TimeSS]) == format_padded(v % 60, 2),
        rendered_stamp(st, seq![StampPartView::DateYYYY]) == format_padded(civil_date(v / 86400).0, 4),
        rendered_stamp(st, seq![StampPartView::DateMM]) == format_padded(civil_date(v / 86400).1, 2),
        rendered_stamp(st, seq![StampPartView::DateDD]) == format_padded(civil_date(v / 86400).2, 2),
{
    lemma_civil_date_bounds(v / 86400);
    vstd::arithmetic::div_mod::lemma_mod_mod(v, 3600, 24);
    assert((v % 86400) % 3600 == v % 3600);
    let d = stamp_utc(st)->0;
    assert(d.hh as int == (v % 86400) / 3600);
    assert(d.mm as int == (v % 3600) / 60);
    assert(d.ss as int == v % 60);
    assert(d.yyyy as int == civil_date(v / 86400).0);
    assert(d.mo as int == civil_date(v / 86400).1);
    assert(d.dd as int == civil_date(v / 86400).2);
    reveal_with_fuel(render_parts, 2);
}

proof fn lemma_render_push(p: Seq<StampPartView>, x: StampPartView, st: StampView, dt: Option<UtcParts>)
    ensures
        render_parts(p.push(x), st, dt) == render_parts(p, st, dt) + render_part(x, st, dt),
{
    assert(p.push(x).drop_last() =~= p);
}

/// The default pretty layout shows `[YYYY-MM-DD HH:MM:SS] LEVEL` of the timestamp's epoch
/// seconds `v`, in UTC: year, month and day of the date `v / 86400` days after 1970-01-01,
/// then the hours, minutes and seconds of `v` within its day.
pub proof fn lemma_render_default_pretty(st: StampView, v: int)
    requires
        parse_i64_spec(trim(st.timestamp)) == Ok::<int, IntErrorKind>(v),
        v >= 0,
        civil_date(v / 86400).0 <= i32::MAX,
    ensures
        rendered_stamp(st, default_pretty_parts()) == "["@ + format_padded(civil_date(v / 86400).0, 4) + "-"@
            + format_padded(civil_date(v / 86400).1, 2) + "-"@ + format_padded(civil_date(v / 86400).2, 2) + " "@
            + format_padded((v % 86400) / 3600, 2) + ":"@ + format_padded((v % 3600) / 60, 2) + ":"@
            + format_padded(v % 60, 2) + "] "@ + level_text(st.level),
{
    lemma_render_utc_parts(st, v);
    reveal_with_fuel(render_parts, 2);
    let dt = stamp_utc(st);
    let lit = |t: Seq<char>| StampPartView::Literal(t);
    let p0 = Seq::<StampPartView>::empty();
    let p1 = p0.push(lit("["@));
    let p2 = p1.push(StampPartView::DateYYYY);
    let p3 = p2.push(lit("-"@));
    let p4 = p3.push(StampPartView::DateMM);
    let p5 = p4.push(lit("-"@));
    let p6 = p5.push(StampPartView::DateDD);
    let p7 = p6.push(lit(" "@));
    let p8 = p7.push(StampPartView::TimeHH);
    let p9 = p8.push(lit(":"@));
    let p10 = p9.push(StampPartView::TimeMM);
    let p11 = p10.push(lit(":"@));
    let p12 = p11.push(StampPartView::TimeSS);
    let p13 = p12.push(lit("] "@));
    let p14 = p13.push(StampPartView::Level);
    assert(p14 =~= default_pretty_parts());
    lemma_render_push(p0, lit("["@), st, dt);
    lemma_render_push(p1, StampPartView::DateYYYY, st, dt);
    lemma_render_push(p2, lit("-"@), st, dt);
    lemma_render_push(p3, StampPartView::DateMM, st, dt);
    lemma_render_push(p4, lit("-"@), st, dt);
    lemma_render_push(p5, StampPartView::DateDD, st, dt);
    lemma_render_push(p6, lit(" "@), st, dt);
    lemma_render_push(p7, StampPartView::TimeHH, st, dt);
    lemma_render_push(p8, lit(":"@), st, dt);
    lemma_render_push(p9, StampPartView::TimeMM, st, dt);
    lemma_render_push(p10, lit(":"@), st, dt);
    lemma_render_push(p11, StampPartView::TimeSS, st, dt);
    lemma_render_push(p12, lit("] "@), st, dt);
    lemma_render_push(p13, StampPartView::Level, st, dt);
    assert(render_parts(p0, st, dt) == Seq::<char>::empty());
    assert(Seq::<char>::empty() + "["@ == "["@);
}

/// A layout renders part by part: the text of two layouts one after the other is the text
/// of the first followed by that of the second.
pub proof fn lemma_render_concat(st: StampView, a: Seq<StampPartView>, b: Seq<StampPartView>)
    ensures
        rendered_stamp(st, a + b) == rendered_stamp(st, a) + rendered_stamp(st, b),
    decreases b.len(),
{
    let dt = stamp_utc(st);
    if b.len() == 0 {
        assert(a + b =~= a);
        assert(render_parts(b, st, dt) == Seq::<char>::empty());
        assert(render_parts(a, st, dt) + Seq::<char>::empty() == render_parts(a, st, dt));
    } else {
        assert((a + b).drop_last() =~= a + b.drop_last());
        assert((a + b).last() == b.last());
        lemma_render_concat(st, a, b.drop_last());
        assert(render_parts(a, st, dt) + render_parts(b.drop_last(), st, dt) + render_part(b.last(), st, dt)
            == render_parts(a, st, dt) + (render_parts(b.drop_last(), st, dt) + render_part(b.last(), st, dt)));
    }
}

/// The parts that do not depend on the time: a literal shows itself, the level its name, the
/// source its text (nothing for none). When the timestamp is no whole number of seconds at or
/// after the epoch, each date and time part shows the timestamp as written.
pub proof fn lemma_render_other_parts(st: StampView, t: Seq<char>)
    ensures
        rendered_stamp(st, seq![StampPartView::Literal(t)]) == t,
        rendered_stamp(st, seq![StampPartView::Level]) == level_text(st.level),
        rendered_stamp(st, seq![StampPartView::Source]) == match st.source {
            Some(src) => src,
            None => Seq::<char>::empty(),
        },
        parse_i64_spec(trim(st.timestamp)) is Err || parse_i64_spec(trim(st.timestamp))->Ok_0 < 0 ==> {
            &&& rendered_stamp(st, seq![StampPartView::TimeHH]) == st.timestamp
            &&& rendered_stamp(st, seq![StampPartView::TimeMM]) == st.timestamp
            &&& rendered_stamp(st, seq![StampPartView::TimeSS]) == st.timestamp
            &&& rendered_stamp(st, seq![StampPartView::DateYYYY]) == st.timestamp
            &&& rendered_stamp(st, seq![StampPartView::DateMM]) == st.timestamp
            &&& rendered_stamp(st, seq![StampPartView::DateDD]) == st.timestamp
        },
{
    reveal_with_fuel(render_parts, 2);
}

} // verus!
