use vstd::prelude::*;

verus! {

/// Gregorian leap years.
pub open spec fn is_leap(y: int) -> bool {
    y % 4 == 0 && (y % 100 != 0 || y % 400 == 0)
}

pub open spec fn year_len(y: int) -> int {
    if is_leap(y) { 366 } else { 365 }
}

/// Days from 0001-01-01 to the first of January of year `y` (for `y >= 1`).
pub open spec fn days_before_year(y: int) -> int {
    let k = y - 1;
    365 * k + k / 4 - k / 100 + k / 400
}

/// Days in month `m` (1 = January) of year `y`.
pub open spec fn month_len(y: int, m: int) -> int {
    if m == 2 {
        if is_leap(y) { 29 } else { 28 }
    } else if m == 4 || m == 6 || m == 9 || m == 11 {
        30
    } else {
        31
    }
}

/// Days in the months of year `y` before month `m`.
pub open spec fn days_before_month(y: int, m: int) -> int
    decreases m,
{
    if m <= 1 {
        0
    } else {
        days_before_month(y, m - 1) + month_len(y, m - 1)
    }
}

/// Day number of a date counted from 1970-01-01 (day 0).
pub open spec fn days_from_civil(y: int, m: int, d: int) -> int {
    days_before_year(y) + days_before_month(y, m) + d - 1 - days_before_year(1970)
}

/// A real date of the proleptic Gregorian calendar, in year 1 or later.
pub open spec fn valid_date(y: int, m: int, d: int) -> bool {
    y >= 1 && 1 <= m <= 12 && 1 <= d <= month_len(y, m)
}

/// The date of day `n` after 1970-01-01.
pub open spec fn civil_date(n: int) -> (int, int, int) {
    choose|ymd: (int, int, int)| valid_date(ymd.0, ymd.1, ymd.2) && days_from_civil(ymd.0, ymd.1, ymd.2) == n
}

pub proof fn lemma_days_before_year_step(y: int)
    requires
        y >= 1,
    ensures
        days_before_year(y + 1) == days_before_year(y) + year_len(y),
{
    let k = y - 1;
    assert((k + 1) / 4 - k / 4 == if y % 4 == 0 { 1int } else { 0int });
    assert((k + 1) / 100 - k / 100 == if y % 100 == 0 { 1int } else { 0int });
    assert((k + 1) / 400 - k / 400 == if y % 400 == 0 { 1int } else { 0int });
    if y % 100 == 0 {
        assert(y % 4 == 0);
    }
    if y % 400 == 0 {
        assert(y % 100 == 0);
    }
}

pub proof fn lemma_days_before_year_mono(a: int, b: int)
    requires
        1 <= a <= b,
    ensures
        days_before_year(a) + 365 * (b - a) <= days_before_year(b),
    decreases b - a,
{
    if a < b {
        lemma_days_before_year_mono(a, b - 1);
        lemma_days_before_year_step(b - 1);
    }
}

pub proof fn lemma_year_months(y: int)
    ensures
        days_before_month(y, 13) == year_len(y),
        forall|m: int| 1 <= m <= 12 ==> 28 <= #[trigger] month_len(y, m) <= 31,
{
    reveal_with_fuel(days_before_month, 13);
}

pub proof fn lemma_days_before_month_mono(y: int, a: int, b: int)
    requires
        1 <= a <= b <= 13,
    ensures
        days_before_month(y, a) + (b - a) * 28 <= days_before_month(y, b),
    decreases b - a,
{
    lemma_year_months(y);
    if a < b {
        lemma_days_before_month_mono(y, a, b - 1);
        assert(month_len(y, b - 1) >= 28);
    }
}

/// Where a valid date falls within its year.
proof fn lemma_date_in_year(y: int, m: int, d: int)
    requires
        valid_date(y, m, d),
    ensures
        days_before_year(y) <= days_before_year(y) + days_before_month(y, m) + d - 1 < days_before_year(y + 1),
{
    lemma_year_months(y);
    lemma_days_before_month_mono(y, m + 1, 13);
    lemma_days_before_month_mono(y, 1, m);
    assert(days_before_month(y, m + 1) == days_before_month(y, m) + month_len(y, m));
    lemma_days_before_year_step(y);
}

/// A day number names at most one valid date.
pub proof fn lemma_civil_unique(y1: int, m1: int, d1: int, y2: int, m2: int, d2: int)
    requires
        valid_date(y1, m1, d1),
        valid_date(y2, m2, d2),
        days_from_civil(y1, m1, d1) == days_from_civil(y2, m2, d2),
    ensures
        y1 == y2 && m1 == m2 && d1 == d2,
{
    lemma_date_in_year(y1, m1, d1);
    lemma_date_in_year(y2, m2, d2);
    if y1 < y2 {
        lemma_days_before_year_mono(y1 + 1, y2);
    } else if y2 < y1 {
        lemma_days_before_year_mono(y2 + 1, y1);
    } else {
        if m1 < m2 {
            lemma_days_before_month_mono(y1, m1 + 1, m2);
        } else if m2 < m1 {
            lemma_days_before_month_mono(y1, m2 + 1, m1);
        }
    }
}

/// `civil_date` is the date in question, whenever there is one.
pub proof fn lemma_civil_date(n: int, y: int, m: int, d: int)
    requires
        valid_date(y, m, d),
        days_from_civil(y, m, d) == n,
    ensures
        civil_date(n) == (y, m, d),
{
    let ymd = civil_date(n);
    assert(valid_date((y, m, d).0, (y, m, d).1, (y, m, d).2));
    lemma_civil_unique(ymd.0, ymd.1, ymd.2, y, m, d);
}

/// Year of a 400-year era (counted from March) that day `doe` of the era falls in.
pub open spec fn era_year_of(doe: int) -> int {
    (doe - doe / 1460 + doe / 36524 - doe / 146096) / 365
}

/// Days from the start of an era (a first of March) to the start of its year `y`.
pub open spec fn era_days_before(y: int) -> int {
    365 * y + y / 4 - y / 100
}

/// Which year of its era day `doe` falls in, checked bit by bit over the days of an era.
proof fn lemma_era_year_bits(doe: u32)
    requires
        doe <= 146096,
    ensures
        0 <= era_year_of(doe as int) < 400,
        era_days_before(era_year_of(doe as int)) <= doe,
        doe - era_days_before(era_year_of(doe as int)) < 365 + if is_leap(era_year_of(doe as int) + 1) { 1int } else { 0int },
{
    assert({
        let y = (doe - doe / 1460 + doe / 36524 - doe / 146096) / 365;
        let n = 365 * y + y / 4 - y / 100;
        &&& 0 <= y < 400
        &&& n <= doe
        &&& doe - n < 365 + if (y + 1) % 4 == 0 && ((y + 1) % 100 != 0 || (y + 1) % 400 == 0) { 1int } else { 0int }
    }) by (bit_vector)
        requires
            doe <= 146096;
}

/// Month of a year counted from March (0 = March, ..., 11 = February) that day `doy` of
/// that year falls in.
pub open spec fn march_month_of(doy: int) -> int {
    (5 * doy + 2) / 153
}

/// Days of a year counted from March before its month `mp` (0 = March).
pub open spec fn march_month_start(mp: int) -> int {
    (153 * mp + 2) / 5
}

/// Which month (counted from March) day `doy` of a year falls in, checked bit by bit over
/// the days of a year.
proof fn lemma_march_month_bits(doy: u32)
    requires
        doy <= 365,
    ensures
        0 <= march_month_of(doy as int) <= 11,
        march_month_start(march_month_of(doy as int)) <= doy,
        march_month_of(doy as int) < 11 ==> doy - march_month_start(march_month_of(doy as int)) < if march_month_of(doy as int) == 1
            || march_month_of(doy as int) == 3 || march_month_of(doy as int) == 6 || march_month_of(doy as int) == 8 { 30int } else { 31int },
{
    assert({
        let mp = (5 * doy + 2) / 153;
        let off = (153 * mp + 2) / 5;
        &&& 0 <= mp <= 11
        &&& off <= doy
        &&& mp < 11 ==> doy - off < if mp == 1 || mp == 3 || mp == 6 || mp == 8 { 30int } else { 31int }
    }) by (bit_vector)
        requires
            doy <= 365;
}

/// Where the months of year `y` start, against the months of a year counted from March.
proof fn lemma_month_starts(y: int)
    ensures
        days_before_month(y, 1) == 0,
        days_before_month(y, 2) == 31,
        forall|m: int| 3 <= m <= 12 ==> #[trigger] days_before_month(y, m) == 59 + (if is_leap(y) { 1int } else { 0int }) + march_month_start(m - 3),
        march_month_start(10) == 306,
        march_month_start(11) == 337,
{
    reveal_with_fuel(days_before_month, 13);
    assert(days_before_month(y, 3) == 59 + (if is_leap(y) { 1int } else { 0int }) + march_month_start(0));
    assert(days_before_month(y, 4) == 59 + (if is_leap(y) { 1int } else { 0int }) + march_month_start(1));
    assert(days_before_month(y, 5) == 59 + (if is_leap(y) { 1int } else { 0int }) + march_month_start(2));
    assert(days_before_month(y, 6) == 59 + (if is_leap(y) { 1int } else { 0int }) + march_month_start(3));
    assert(days_before_month(y, 7) == 59 + (if is_leap(y) { 1int } else { 0int }) + march_month_start(4));
    assert(days_before_month(y, 8) == 59 + (if is_leap(y) { 1int } else { 0int }) + march_month_start(5));
    assert(days_before_month(y, 9) == 59 + (if is_leap(y) { 1int } else { 0int }) + march_month_start(6));
    assert(days_before_month(y, 10) == 59 + (if is_leap(y) { 1int } else { 0int }) + march_month_start(7));
    assert(days_before_month(y, 11) == 59 + (if is_leap(y) { 1int } else { 0int }) + march_month_start(8));
    assert(days_before_month(y, 12) == 59 + (if is_leap(y) { 1int } else { 0int }) + march_month_start(9));
}

/// Leap years repeat every 400 years.
proof fn lemma_leap_era(e: int, k: int)
    requires
        e >= 0,
        k >= 0,
    ensures
        is_leap(400 * e + k) == is_leap(k),
{
    vstd::arithmetic::div_mod::lemma_fundamental_div_mod_converse(400 * e + k, 4, 100 * e + k / 4, k % 4);
    vstd::arithmetic::div_mod::lemma_fundamental_div_mod_converse(400 * e + k, 100, 4 * e + k / 100, k % 100);
    vstd::arithmetic::div_mod::lemma_fundamental_div_mod_converse(400 * e + k, 400, e + k / 400, k % 400);
}

/// The first of January of year `400 * e + k + 1` (for `k` in an era) comes
/// `146097 * e + era_days_before(k)` days after 0001-01-01.
proof fn lemma_days_before_era_year(e: int, k: int)
    requires
        e >= 0,
        0 <= k < 400,
    ensures
        days_before_year(400 * e + k + 1) == 146097 * e + era_days_before(k),
{
    let y = 400 * e + k;
    vstd::arithmetic::div_mod::lemma_fundamental_div_mod_converse(y, 4, 100 * e + k / 4, k % 4);
    vstd::arithmetic::div_mod::lemma_fundamental_div_mod_converse(y, 100, 4 * e + k / 100, k % 100);
    vstd::arithmetic::div_mod::lemma_fundamental_div_mod_converse(y, 400, e, k);
}

/// Day `n` after 1970-01-01, as Howard Hinnant's `civil_from_days` splits it: the day is
/// `z` days after 0000-03-01, in 400-year era `era`, on day `doe` of the era, in year `yoe`
/// of the era (counted from March), on day `doy` of that year, in month `mp` (counted from
/// March), on day `d` of that month.
pub proof fn lemma_era_date(n: int)
    requires
        n >= 0,
    ensures
        ({
            let z = n + 719468;
            let era = z / 146097;
            let doe = z - era * 146097;
            let yoe = era_year_of(doe);
            let doy = doe - era_days_before(yoe);
            let mp = march_month_of(doy);
            let d = doy - march_month_start(mp) + 1;
            let m = if mp < 10 { mp + 3 } else { mp - 9 };
            civil_date(n) == (yoe + era * 400 + if m <= 2 { 1int } else { 0int }, m, d)
        }),
        valid_date(civil_date(n).0, civil_date(n).1, civil_date(n).2),
{
    let z = n + 719468;
    let era = z / 146097;
    let doe = z - era * 146097;
    assert(0 <= doe < 146097);
    assert(era >= 4);
    lemma_era_year_bits(doe as u32);
    let yoe = era_year_of(doe);
    let doy = doe - era_days_before(yoe);
    lemma_march_month_bits(doy as u32);
    let mp = march_month_of(doy);
    let d = doy - march_month_start(mp) + 1;
    let m = if mp < 10 { mp + 3 } else { mp - 9 };
    let ym = yoe + era * 400;
    let year = ym + if m <= 2 { 1int } else { 0int };
    lemma_days_before_era_year(era, yoe);
    lemma_leap_era(era, yoe + 1);
    lemma_days_before_year_step(ym);
    lemma_month_starts(year);
    assert(days_before_year(ym + 1) + doy == z);
    assert(valid_date(year, m, d));
    assert(days_from_civil(year, m, d) == n);
    lemma_civil_date(n, year, m, d);
}

/// The ranges of the parts `lemma_era_date` splits day `n` into.
pub proof fn lemma_era_bounds(n: int)
    requires
        n >= 0,
    ensures
        ({
            let z = n + 719468;
            let era = z / 146097;
            let doe = z - era * 146097;
            let yoe = era_year_of(doe);
            let doy = doe - era_days_before(yoe);
            let mp = march_month_of(doy);
            &&& 4 <= era && era * 146097 <= z
            &&& 0 <= doe < 146097
            &&& 0 <= yoe < 400
            &&& 0 <= era_days_before(yoe) <= doe
            &&& 0 <= doy <= 365
            &&& 0 <= mp <= 11
            &&& 0 <= march_month_start(mp) <= doy
        }),
{
    let z = n + 719468;
    let era = z / 146097;
    let doe = z - era * 146097;
    lemma_era_year_bits(doe as u32);
    let yoe = era_year_of(doe);
    let doy = doe - era_days_before(yoe);
    lemma_march_month_bits(doy as u32);
}

} // verus!
