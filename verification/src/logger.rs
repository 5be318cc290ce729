//! Log lines, and the timestamps that the conflict prompt shares with them.

use vstd::prelude::*;

use crate::text;

verus! {

/// Whether the proleptic Gregorian year `y` has a 29 February.
pub open spec fn is_leap(y: int) -> bool {
    y % 4 == 0 && (y % 100 != 0 || y % 400 == 0)
}

/// Days in one month; 0 outside 1..=12.
pub open spec fn days_in_month(y: int, m: int) -> int {
    if m == 4 || m == 6 || m == 9 || m == 11 {
        30
    } else if m == 2 {
        if is_leap(y) {
            29
        } else {
            28
        }
    } else if 1 <= m <= 12 {
        31
    } else {
        0
    }
}

/// Days in one year.
pub open spec fn days_in_year(y: int) -> int {
    if is_leap(y) {
        366
    } else {
        365
    }
}

/// A day that the calendar has.
pub open spec fn valid_date(y: int, m: int, d: int) -> bool {
    1 <= m <= 12 && 1 <= d <= days_in_month(y, m)
}

/// Days from the start of year 0 to the start of year `y`.
pub open spec fn days_before_year(y: int) -> int {
    365 * y + (y + 3) / 4 - (y + 99) / 100 + (y + 399) / 400
}

/// Days from the start of year `y` to the start of its month `m`.
pub open spec fn days_before_month(y: int, m: int) -> int
    decreases m,
{
    if m <= 1 {
        0
    } else {
        days_before_month(y, m - 1) + days_in_month(y, m - 1)
    }
}

/// Days from 1970-01-01 to the given date.
pub open spec fn day_number(y: int, m: int, d: int) -> int {
    days_before_year(y) - days_before_year(1970) + days_before_month(y, m) + d - 1
}

/// Days in the first `y` March-to-February years of a 400-year era, for `y < 400`.
spec fn shifted_days(y: int) -> int {
    365 * y + y / 4 - y / 100
}

/// Years of an era, found within one of its centuries.
proof fn lemma_year_of_century(century: int, doe: int, yoe: int)
    requires
        0 <= century < 4,
        century * 36_524 <= doe < (century + 1) * 36_524,
        yoe == (doe - doe / 1460 + century) / 365,
    ensures
        century * 100 <= yoe < (century + 1) * 100,
        shifted_days(yoe) <= doe < shifted_days(yoe + 1) || (yoe == 399 && shifted_days(yoe) <= doe),
{
    // Within a century, cycles of four years and 1461 days repeat.
    let doc = doe - century * 36_524;
    let cycle = doc / 1461;
    let rest = doc % 1461;
    assert(0 <= cycle <= 24);
    let late = if rest >= 1460 - cycle - 24 * century {
        1int
    } else {
        0
    };
    let year = if rest < 365 {
        0int
    } else if rest < 730 {
        1
    } else if rest < 1095 {
        2
    } else {
        3
    };
    assert(doe == 1460 * (25 * century + cycle) + cycle + rest + 24 * century);
    assert(doe / 1460 == 25 * century + cycle + late);
    assert(doe - doe / 1460 + century == 365 * (100 * century + 4 * cycle + year) + (rest - late
        - 365 * year));
    assert(0 <= rest - late - 365 * year < 365);
    assert(yoe == 100 * century + 4 * cycle + year);
    assert(yoe / 4 == 25 * century + cycle);
    assert(yoe / 100 == century);
    assert((yoe + 1) / 4 == 25 * century + cycle + if year == 3 { 1int } else { 0 });
    assert((yoe + 1) / 100 == century + if yoe + 1 == 100 * (century + 1) { 1int } else { 0 });
}

proof fn lemma_year_of_era(doe: int, yoe: int)
    requires
        0 <= doe < 146_097,
        yoe == (doe - doe / 1460 + doe / 36_524 - doe / 146_096) / 365,
    ensures
        0 <= yoe < 400,
        shifted_days(yoe) <= doe,
        doe < shifted_days(yoe + 1) || (yoe == 399 && doe == 146_096),
{
    if doe < 146_096 {
        lemma_year_of_century(doe / 36_524, doe, yoe);
    }
}

/// The calendar repeats every 400 years.
proof fn lemma_era(y: int, era: int)
    ensures
        days_before_year(y + era * 400) == era * 146_097 + days_before_year(y),
        is_leap(y + era * 400) == is_leap(y),
{
    vstd::arithmetic::div_mod::lemma_hoist_over_denominator(y + 3, era * 100, 4);
    vstd::arithmetic::div_mod::lemma_hoist_over_denominator(y + 99, era * 4, 100);
    vstd::arithmetic::div_mod::lemma_hoist_over_denominator(y + 399, era, 400);
    vstd::arithmetic::div_mod::lemma_mod_multiples_vanish(era * 100, y, 4);
    vstd::arithmetic::div_mod::lemma_mod_multiples_vanish(era * 4, y, 100);
    vstd::arithmetic::div_mod::lemma_mod_multiples_vanish(era, y, 400);
}

/// Each year starts where the one before it ends.
pub proof fn law_years_join_up(y: int)
    ensures
        days_before_year(y + 1) == days_before_year(y) + days_in_year(y),
{
    assert((y + 4) / 4 == (y + 3) / 4 + if y % 4 == 0 { 1int } else { 0 });
    assert((y + 100) / 100 == (y + 99) / 100 + if y % 100 == 0 { 1int } else { 0 });
    assert((y + 400) / 400 == (y + 399) / 400 + if y % 400 == 0 { 1int } else { 0 });
}

/// The months of a March-to-February year, as one linear formula.
proof fn lemma_month_starts(y: int)
    ensures
        days_before_month(y, 1) == 0,
        days_before_month(y, 2) == 31,
        forall|m: int|
            3 <= m <= 12 ==> #[trigger] days_before_month(y, m) == days_in_year(y) - 306 + (153 * (
            m - 3) + 2) / 5,
{
    reveal_with_fuel(days_before_month, 13);
}

/// A year that is counted from March ends with a leap day just where the calendar has one.
proof fn lemma_shifted_year(yoe: int)
    requires
        0 <= yoe < 400,
    ensures
        days_before_year(yoe) + days_in_year(yoe) == shifted_days(yoe) + 366,
        yoe < 399 ==> shifted_days(yoe + 1) - shifted_days(yoe) == days_in_year(yoe + 1),
        is_leap(400),
        shifted_days(399) + 365 == 146_096,
{
    law_years_join_up(yoe);
    assert((yoe + 4) / 4 == yoe / 4 + 1);
    assert((yoe + 100) / 100 == yoe / 100 + 1);
    assert((yoe + 400) / 400 == 1);
    assert((yoe + 1) / 4 == yoe / 4 + if (yoe + 1) % 4 == 0 { 1int } else { 0 });
    assert((yoe + 1) / 100 == yoe / 100 + if (yoe + 1) % 100 == 0 { 1int } else { 0 });
}

/// Month and day from the day of a March-to-February year.
proof fn lemma_month_of_year(doy: int, mp: int, d: int)
    requires
        0 <= doy <= 365,
        mp == (5 * doy + 2) / 153,
        d == doy - (153 * mp + 2) / 5 + 1,
    ensures
        0 <= mp < 12,
        1 <= d <= days_in_month(1, if mp < 10 { mp + 3 } else { mp - 9 }) || (mp == 11 && doy == 365
            && d == 29),
{
    assert(mp == 0 || mp == 1 || mp == 2 || mp == 3 || mp == 4 || mp == 5 || mp == 6 || mp == 7
        || mp == 8 || mp == 9 || mp == 10 || mp == 11);
}

/// The date within a 400-year era that starts on 1 March of year 0.
proof fn lemma_date_in_era(doe: int, yoe: int, doy: int, mp: int, d: int, m: int, y: int)
    requires
        0 <= doe < 146_097,
        yoe == (doe - doe / 1460 + doe / 36_524 - doe / 146_096) / 365,
        doy == doe - shifted_days(yoe),
        mp == (5 * doy + 2) / 153,
        d == doy - (153 * mp + 2) / 5 + 1,
        m == if mp < 10 {
            mp + 3
        } else {
            mp - 9
        },
        y == if m <= 2 {
            yoe + 1
        } else {
            yoe
        },
    ensures
        0 <= yoe < 400,
        0 <= doy <= 365,
        0 <= mp < 12,
        valid_date(y, m, d),
        days_before_year(y) + days_before_month(y, m) + d - 1 == doe + 60,
{
    lemma_year_of_era(doe, yoe);
    law_years_join_up(yoe);
    lemma_shifted_year(yoe);
    assert(0 <= doy <= 365 && (doy == 365 ==> is_leap(yoe + 1)));
    lemma_month_of_year(doy, mp, d);
    lemma_month_starts(y);
}

/// The date of an era's day, moved to its era.
proof fn lemma_date(z: int, era: int, doe: int, y: int, m: int, d: int)
    requires
        z + 719_468 == era * 146_097 + doe,
        valid_date(y, m, d),
        days_before_year(y) + days_before_month(y, m) + d - 1 == doe + 60,
    ensures
        valid_date(y + era * 400, m, d),
        day_number(y + era * 400, m, d) == z,
{
    lemma_era(y, era);
    lemma_month_starts(y);
    lemma_month_starts(y + era * 400);
    assert(days_before_year(1970) == 719_528);
}

/// Howard Hinnant's `civil_from_days`: days since 1970-01-01 to (year, month, day).
///
/// The date is a day of the proleptic Gregorian calendar, and the one that lies `z` days after
/// the epoch.
pub fn civil_from_days(z: i64) -> (r: (i64, u32, u32))
    requires
        z <= i64::MAX - 719_468,
    ensures
        valid_date(r.0 as int, r.1 as int, r.2 as int),
        day_number(r.0 as int, r.1 as int, r.2 as int) == z,
{
    let z1: i64 = z + 719_468;
    let era: i64 = z1.checked_div_euclid(146_097).unwrap();
    let doe: i64 = z1.checked_rem_euclid(146_097).unwrap();
    assert(z1 == era * 146_097 + doe && 0 <= doe < 146_097);
    let yoe: i64 = (doe - doe / 1460 + doe / 36_524 - doe / 146_096) / 365;
    let ghost gdoy: int = doe - shifted_days(yoe as int);
    let ghost gmp: int = (5 * gdoy + 2) / 153;
    let ghost gd: int = gdoy - (153 * gmp + 2) / 5 + 1;
    let ghost gm: int = if gmp < 10 { gmp + 3 } else { gmp - 9 };
    let ghost gy: int = if gm <= 2 { yoe + 1 } else { yoe as int };
    proof {
        lemma_date_in_era(doe as int, yoe as int, gdoy, gmp, gd, gm, gy);
        lemma_date(z as int, era as int, doe as int, gy, gm, gd);
    }
    let y: i64 = yoe + era * 400;
    let doy: i64 = doe - (365 * yoe + yoe / 4 - yoe / 100);
    assert(doy == gdoy);
    let mp: i64 = (5 * doy + 2) / 153;
    assert(mp == gmp);
    let d: u32 = (doy - (153 * mp + 2) / 5 + 1) as u32;
    assert(d == gd);
    let m: u32 = (if mp < 10 { mp + 3 } else { mp - 9 }) as u32;
    assert(m == gm);
    (if m <= 2 { y + 1 } else { y }, m, d)
}

/// Later years start later.
proof fn lemma_years_in_order(a: int, b: int)
    requires
        a <= b,
    ensures
        days_before_year(a) <= days_before_year(b),
    decreases b - a,
{
    if a < b {
        lemma_years_in_order(a, b - 1);
        law_years_join_up(b - 1);
    }
}

/// Later months start after earlier ones end.
proof fn lemma_months_in_order(y: int, m1: int, m2: int)
    requires
        1 <= m1 < m2 <= 13,
    ensures
        days_before_month(y, m1) + days_in_month(y, m1) <= days_before_month(y, m2),
    decreases m2 - m1,
{
    if m1 + 1 < m2 {
        lemma_months_in_order(y, m1, m2 - 1);
    }
}

/// The date `a` comes before the date `b`.
pub open spec fn earlier(a: (int, int, int), b: (int, int, int)) -> bool {
    a.0 < b.0 || (a.0 == b.0 && (a.1 < b.1 || (a.1 == b.1 && a.2 < b.2)))
}

/// Day numbers follow the calendar: an earlier date has a smaller number.
pub proof fn law_day_numbers_follow_the_calendar(a: (int, int, int), b: (int, int, int))
    requires
        valid_date(a.0, a.1, a.2),
        valid_date(b.0, b.1, b.2),
        earlier(a, b),
    ensures
        day_number(a.0, a.1, a.2) < day_number(b.0, b.1, b.2),
{
    if a.0 < b.0 {
        law_years_join_up(a.0);
        lemma_years_in_order(a.0 + 1, b.0);
        lemma_months_in_order(a.0, a.1, 13);
        lemma_month_starts(a.0);
        assert(days_before_month(a.0, 13) == days_before_month(a.0, 12) + 31);
        lemma_month_is_not_negative(b.0, b.1);
    } else if a.1 < b.1 {
        lemma_months_in_order(a.0, a.1, b.1);
    }
}

proof fn lemma_month_is_not_negative(y: int, m: int)
    ensures
        days_before_month(y, m) >= 0,
    decreases m,
{
    if m > 1 {
        lemma_month_is_not_negative(y, m - 1);
    }
}

/// No two dates share a day number, so `civil_from_days` has one right answer.
pub proof fn law_date_is_unique(a: (int, int, int), b: (int, int, int))
    requires
        valid_date(a.0, a.1, a.2),
        valid_date(b.0, b.1, b.2),
        day_number(a.0, a.1, a.2) == day_number(b.0, b.1, b.2),
    ensures
        a == b,
{
    if earlier(a, b) {
        law_day_numbers_follow_the_calendar(a, b);
    } else if earlier(b, a) {
        law_day_numbers_follow_the_calendar(b, a);
    }
}

/// An instant, as whole seconds since 1970-01-01 00:00:00 UTC and the milliseconds after them.
#[derive(Debug, Clone, Copy, PartialEq, Eq, Structural)]
pub struct UnixTime {
    pub secs: u64,
    pub millis: u32,
}

/// The date that lies `z` days after the epoch.
pub open spec fn date_of(z: int) -> (int, int, int) {
    choose|r: (int, int, int)| valid_date(r.0, r.1, r.2) && #[trigger] day_number(r.0, r.1, r.2) == z
}

/// Every day has a date.
pub proof fn law_every_day_has_a_date(z: int)
    ensures
        ({
            let date = date_of(z);
            &&& valid_date(date.0, date.1, date.2)
            &&& day_number(date.0, date.1, date.2) == z
        }),
{
    let era = (z + 719_468) / 146_097;
    let doe = (z + 719_468) % 146_097;
    let yoe = (doe - doe / 1460 + doe / 36_524 - doe / 146_096) / 365;
    let doy = doe - shifted_days(yoe);
    let mp = (5 * doy + 2) / 153;
    let d = doy - (153 * mp + 2) / 5 + 1;
    let m = if mp < 10 {
        mp + 3
    } else {
        mp - 9
    };
    let y = if m <= 2 {
        yoe + 1
    } else {
        yoe
    };
    lemma_date_in_era(doe, yoe, doy, mp, d, m, y);
    lemma_date(z, era, doe, y, m, d);
    let r = (y + era * 400, m, d);
    assert(valid_date(r.0, r.1, r.2) && day_number(r.0, r.1, r.2) == z);
}

/// The instant itself, or the epoch for one before it.
pub open spec fn since_epoch(t: Option<UnixTime>) -> UnixTime {
    match t {
        Some(t) => t,
        None => UnixTime { secs: 0, millis: 0 },
    }
}

/// `n` with at least `width` digits.
pub open spec fn fixed_digits(n: int, width: int) -> Seq<char> {
    text::pad_left(text::decimal(n as nat), '0', width)
}

/// `YYYY-MM-DD HH:MM:SS` of a number of seconds since the epoch.
pub open spec fn seconds_stamp(secs: nat) -> Seq<char> {
    let date = date_of((secs / 86_400) as int);
    let rem = secs % 86_400;
    fixed_digits(date.0, 4) + "-"@ + fixed_digits(date.1, 2) + "-"@ + fixed_digits(date.2, 2)
        + " "@ + fixed_digits((rem / 3600) as int, 2) + ":"@ + fixed_digits(
        ((rem % 3600) / 60) as int,
        2,
    ) + ":"@ + fixed_digits((rem % 60) as int, 2)
}

/// `YYYY-MM-DD HH:MM:SS.mmm`.
pub open spec fn time_stamp(t: UnixTime) -> Seq<char> {
    seconds_stamp(t.secs as nat) + "."@ + fixed_digits(t.millis as int, 3)
}

proof fn lemma_date_of(z: int, r: (int, int, int))
    requires
        valid_date(r.0, r.1, r.2),
        day_number(r.0, r.1, r.2) == z,
    ensures
        date_of(z) == r,
{
    law_date_is_unique(date_of(z), r);
}

/// A year from the epoch on is not negative.
proof fn lemma_year_is_positive(y: int, m: int, d: int)
    requires
        valid_date(y, m, d),
        day_number(y, m, d) >= 0,
    ensures
        y >= 1970,
{
    if y < 1970 {
        assert(day_number(1970, 1, 1) == 0);
        law_day_numbers_follow_the_calendar((y, m, d), (1970, 1, 1));
    }
}

/// `YYYY-MM-DD HH:MM:SS` in UTC. Milliseconds are noise when comparing two files.
pub fn format_seconds(t: Option<UnixTime>) -> (r: String)
    ensures
        r@ == seconds_stamp(since_epoch(t).secs as nat),
{
    let secs: u64 = match t {
        Some(t) => t.secs,
        None => 0,
    };
    let days: u64 = secs / 86_400;
    let rem: u64 = secs % 86_400;
    let (y, mo, d) = civil_from_days(days as i64);
    proof {
        lemma_date_of(days as int, (y as int, mo as int, d as int));
        lemma_year_is_positive(y as int, mo as int, d as int);
    }
    let mut out = text::zero_padded(y as u64, 4);
    out.append("-");
    out.append(text::zero_padded(mo as u64, 2).as_str());
    out.append("-");
    out.append(text::zero_padded(d as u64, 2).as_str());
    out.append(" ");
    out.append(text::zero_padded(rem / 3600, 2).as_str());
    out.append(":");
    out.append(text::zero_padded((rem % 3600) / 60, 2).as_str());
    out.append(":");
    out.append(text::zero_padded(rem % 60, 2).as_str());
    out
}

/// `YYYY-MM-DD HH:MM:SS.mmm` in UTC for an arbitrary instant; `None` is one before the epoch,
/// which reads as the epoch. Shared with the conflict prompt, which shows both files'
/// modification times.
pub fn format_time(t: Option<UnixTime>) -> (r: String)
    ensures
        r@ == time_stamp(since_epoch(t)),
        t is None ==> r@ == "1970-01-01 00:00:00.000"@,
{
    proof {
        lemma_epoch_stamp();
    }
    let millis: u32 = match t {
        Some(t) => t.millis,
        None => 0,
    };
    let mut out = format_seconds(t);
    out.append(".");
    out.append(text::zero_padded(millis as u64, 3).as_str());
    out
}

/// No `.` stands in any of the given text.
spec fn free_of_dots(s: Seq<char>) -> bool {
    forall|i: int| 0 <= i < s.len() ==> #[trigger] s[i] != '.'
}

proof fn lemma_fixed_digits_free_of_dots(n: int, width: int)
    ensures
        free_of_dots(fixed_digits(n, width)),
{
    text::lemma_decimal_digits(n as nat);
    let fill = text::repeated('0', width - text::decimal(n as nat).len());
    assert forall|i: int| 0 <= i < fixed_digits(n, width).len() implies #[trigger] fixed_digits(
        n,
        width,
    )[i] != '.' by {
        if i >= fill.len() {
            assert(fixed_digits(n, width)[i] == text::decimal(n as nat)[i - fill.len()]);
        }
    }
}

proof fn lemma_free_of_dots_add(a: Seq<char>, b: Seq<char>)
    requires
        free_of_dots(a),
        free_of_dots(b),
    ensures
        free_of_dots(a + b),
{
    assert forall|i: int| 0 <= i < (a + b).len() implies #[trigger] (a + b)[i] != '.' by {
        if i >= a.len() {
            assert((a + b)[i] == b[i - a.len()]);
        } else {
            assert((a + b)[i] == a[i]);
        }
    }
}

/// Cutting a full timestamp at its first `.` leaves it to the second.
pub proof fn law_seconds_end_at_the_dot(t: UnixTime)
    ensures
        time_stamp(t).index_of_first('.') == Some(seconds_stamp(t.secs as nat).len() as int),
        time_stamp(t).take(seconds_stamp(t.secs as nat).len() as int) == seconds_stamp(
            t.secs as nat,
        ),
{
    reveal_strlit("-");
    reveal_strlit(" ");
    reveal_strlit(":");
    reveal_strlit(".");
    let secs = t.secs as nat;
    let date = date_of((secs / 86_400) as int);
    let rem = secs % 86_400;
    let fields = seq![
        fixed_digits(date.1, 2),
        fixed_digits(date.2, 2),
        fixed_digits((rem / 3600) as int, 2),
        fixed_digits(((rem % 3600) / 60) as int, 2),
        fixed_digits((rem % 60) as int, 2),
    ];
    lemma_fixed_digits_free_of_dots(date.0, 4);
    lemma_fixed_digits_free_of_dots(date.1, 2);
    lemma_fixed_digits_free_of_dots(date.2, 2);
    lemma_fixed_digits_free_of_dots((rem / 3600) as int, 2);
    lemma_fixed_digits_free_of_dots(((rem % 3600) / 60) as int, 2);
    lemma_fixed_digits_free_of_dots((rem % 60) as int, 2);
    let s1 = fixed_digits(date.0, 4) + "-"@;
    lemma_free_of_dots_add(fixed_digits(date.0, 4), "-"@);
    lemma_free_of_dots_add(s1, fields[0]);
    let s2 = s1 + fields[0] + "-"@;
    lemma_free_of_dots_add(s1 + fields[0], "-"@);
    lemma_free_of_dots_add(s2, fields[1]);
    let s3 = s2 + fields[1] + " "@;
    lemma_free_of_dots_add(s2 + fields[1], " "@);
    lemma_free_of_dots_add(s3, fields[2]);
    let s4 = s3 + fields[2] + ":"@;
    lemma_free_of_dots_add(s3 + fields[2], ":"@);
    lemma_free_of_dots_add(s4, fields[3]);
    let s5 = s4 + fields[3] + ":"@;
    lemma_free_of_dots_add(s4 + fields[3], ":"@);
    lemma_free_of_dots_add(s5, fields[4]);
    let front = seconds_stamp(secs);
    assert(front == s5 + fields[4]);
    let all = time_stamp(t);
    assert(all.take(front.len() as int) =~= front);
    assert(all[front.len() as int] == '.');
    assert(all.contains('.'));
    all.index_of_first_ensures('.');
    let k = all.index_of_first('.')->0;
    if k < front.len() {
        assert(all[k] == front[k]);
    }
}

/// The first second of the year 10000.
pub open spec fn year_10000() -> int {
    86_400 * day_number(10_000, 1, 1)
}

impl UnixTime {
    /// The milliseconds are less than a second.
    pub open spec fn wf(self) -> bool {
        self.millis < 1000
    }

    pub open spec fn at_or_before(self, other: UnixTime) -> bool {
        self.secs < other.secs || (self.secs == other.secs && self.millis <= other.millis)
    }
}

/// A timestamp, taken apart from the front.
spec fn stamp_parts(
    date: (int, int, int),
    hour: int,
    minute: int,
    second: int,
    millis: int,
) -> Seq<char> {
    fixed_digits(date.0, 4) + ("-"@ + (fixed_digits(date.1, 2) + ("-"@ + (fixed_digits(date.2, 2)
        + (" "@ + (fixed_digits(hour, 2) + (":"@ + (fixed_digits(minute, 2) + (":"@ + (fixed_digits(
        second,
        2,
    ) + ("."@ + fixed_digits(millis, 3))))))))))))
}

spec fn parts_of_stamp(t: UnixTime) -> Seq<char> {
    let rem = t.secs as int % 86_400;
    stamp_parts(
        date_of(t.secs as int / 86_400),
        rem / 3600,
        (rem % 3600) / 60,
        rem % 60,
        t.millis as int,
    )
}

proof fn lemma_regroup(a: Seq<char>, b: Seq<char>, c: Seq<char>)
    ensures
        a + b + c == a + (b + c),
{
    assert(a + b + c =~= a + (b + c));
}

proof fn lemma_stamp_parts(t: UnixTime)
    ensures
        time_stamp(t) == parts_of_stamp(t),
{
    let date = date_of(t.secs as int / 86_400);
    let rem = t.secs as int % 86_400;
    let y = fixed_digits(date.0, 4);
    let mo = fixed_digits(date.1, 2);
    let d = fixed_digits(date.2, 2);
    let h = fixed_digits(rem / 3600, 2);
    let mi = fixed_digits((rem % 3600) / 60, 2);
    let se = fixed_digits(rem % 60, 2);
    let r0 = "."@ + fixed_digits(t.millis as int, 3);
    let r1 = se + r0;
    let r2 = ":"@ + r1;
    let r3 = mi + r2;
    let r4 = ":"@ + r3;
    let r5 = h + r4;
    let r6 = " "@ + r5;
    let r7 = d + r6;
    let r8 = "-"@ + r7;
    let r9 = mo + r8;
    let r10 = "-"@ + r9;
    let l1 = y + "-"@;
    let l2 = l1 + mo;
    let l3 = l2 + "-"@;
    let l4 = l3 + d;
    let l5 = l4 + " "@;
    let l6 = l5 + h;
    let l7 = l6 + ":"@;
    let l8 = l7 + mi;
    let l9 = l8 + ":"@;
    let l10 = l9 + se;
    assert(seconds_stamp(t.secs as nat) == l10);
    lemma_regroup(l10, "."@, fixed_digits(t.millis as int, 3));
    lemma_regroup(l9, se, r0);
    lemma_regroup(l8, ":"@, r1);
    lemma_regroup(l7, mi, r2);
    lemma_regroup(l6, ":"@, r3);
    lemma_regroup(l5, h, r4);
    lemma_regroup(l4, " "@, r5);
    lemma_regroup(l3, d, r6);
    lemma_regroup(l2, "-"@, r7);
    lemma_regroup(l1, mo, r8);
    lemma_regroup(y, "-"@, r9);
}

/// A field that is padded to a width, and what follows it.
proof fn lemma_field(m: int, n: int, width: int, x: Seq<char>, y: Seq<char>)
    requires
        width > 0,
        0 <= m <= n < text::ten_to(width as nat),
        m == n ==> text::text_le(x, y),
    ensures
        fixed_digits(m, width).len() == width,
        text::text_le(fixed_digits(m, width) + x, fixed_digits(n, width) + y),
        m != n || x != y ==> fixed_digits(m, width) + x != fixed_digits(n, width) + y,
{
    text::lemma_padded_in_order(m as nat, n as nat, width as nat);
    text::lemma_text_le_add(fixed_digits(m, width), x, fixed_digits(n, width), y);
}

/// The same text, and what follows it.
proof fn lemma_separator(s: Seq<char>, x: Seq<char>, y: Seq<char>)
    requires
        text::text_le(x, y),
    ensures
        text::text_le(s + x, s + y),
        x != y ==> s + x != s + y,
{
    lemma_text_le_same(s);
    text::lemma_text_le_add(s, x, s, y);
}

proof fn lemma_text_le_same(s: Seq<char>)
    ensures
        text::text_le(s, s),
    decreases s.len(),
{
    if s.len() > 0 {
        lemma_text_le_same(s.skip(1));
    }
}

/// Each day from the epoch on has its date.
proof fn lemma_date_exists(days: int)
    requires
        0 <= days < day_number(10_000, 1, 1),
    ensures
        ({
            let date = date_of(days);
            &&& valid_date(date.0, date.1, date.2)
            &&& day_number(date.0, date.1, date.2) == days
            &&& 1970 <= date.0 <= 9999
        }),
{
    let date = date_of(days);
    law_every_day_has_a_date(days);
    lemma_year_is_positive(date.0, date.1, date.2);
    if date.0 > 9999 {
        if date != (10_000int, 1int, 1int) {
            law_day_numbers_follow_the_calendar((10_000, 1, 1), date);
        }
    }
}

/// Later seconds of a day are later times.
proof fn lemma_times_in_order(a: int, b: int)
    requires
        0 <= a < 86_400,
        0 <= b < 86_400,
    ensures
        0 <= a / 3600 < 24 && 0 <= (a % 3600) / 60 < 60 && 0 <= a % 60 < 60,
        0 <= b / 3600 < 24 && 0 <= (b % 3600) / 60 < 60 && 0 <= b % 60 < 60,
        a < b ==> earlier(
            (a / 3600, (a % 3600) / 60, a % 60),
            (b / 3600, (b % 3600) / 60, b % 60),
        ),
{
    assert(a == 3600 * (a / 3600) + 60 * ((a % 3600) / 60) + a % 60);
    assert(b == 3600 * (b / 3600) + 60 * ((b % 3600) / 60) + b % 60);
}

/// Later instants have later timestamps, up to the year 9999. Two instants share one only if they
/// are the same.
#[verifier::spinoff_prover]
#[verifier::rlimit(40)]
pub proof fn law_timestamps_are_in_order(a: UnixTime, b: UnixTime)
    requires
        a.wf(),
        b.wf(),
        a.at_or_before(b),
        b.secs < year_10000(),
    ensures
        text::text_le(time_stamp(a), time_stamp(b)),
        a != b ==> time_stamp(a) != time_stamp(b),
{
    let da = a.secs as int / 86_400;
    let db = b.secs as int / 86_400;
    let ra = a.secs as int % 86_400;
    let rb = b.secs as int % 86_400;
    lemma_date_exists(da);
    lemma_date_exists(db);
    let x = date_of(da);
    let y = date_of(db);
    if da < db {
        assert(x != y);
        if earlier(y, x) {
            law_day_numbers_follow_the_calendar(y, x);
        }
    }
    lemma_stamp_parts(a);
    lemma_stamp_parts(b);
    lemma_times_in_order(ra, rb);
    lemma_stamps_in_order(
        x,
        y,
        (ra / 3600, (ra % 3600) / 60, ra % 60),
        (rb / 3600, (rb % 3600) / 60, rb % 60),
        a.millis as int,
        b.millis as int,
    );
}

/// Fields in order make timestamps in order.
proof fn lemma_stamps_in_order(
    x: (int, int, int),
    y: (int, int, int),
    u: (int, int, int),
    v: (int, int, int),
    i: int,
    j: int,
)
    requires
        0 <= x.0 <= 9999 && 0 <= y.0 <= 9999,
        valid_date(x.0, x.1, x.2) && valid_date(y.0, y.1, y.2),
        0 <= u.0 < 24 && 0 <= u.1 < 60 && 0 <= u.2 < 60,
        0 <= v.0 < 24 && 0 <= v.1 < 60 && 0 <= v.2 < 60,
        0 <= i < 1000 && 0 <= j < 1000,
        earlier(x, y) || (x == y && (earlier(u, v) || (u == v && i <= j))),
    ensures
        text::text_le(stamp_parts(x, u.0, u.1, u.2, i), stamp_parts(y, v.0, v.1, v.2, j)),
        x != y || u != v || i != j ==> stamp_parts(x, u.0, u.1, u.2, i) != stamp_parts(
            y,
            v.0,
            v.1,
            v.2,
            j,
        ),
{
    assert(text::ten_to(2) == 100 && text::ten_to(3) == 1000 && text::ten_to(4) == 10_000) by {
        reveal_with_fuel(text::ten_to, 5);
    }
    let none = Seq::<char>::empty();
    let a0 = fixed_digits(i, 3);
    let b0 = fixed_digits(j, 3);
    let a1 = "."@ + a0;
    let b1 = "."@ + b0;
    let a2 = fixed_digits(u.2, 2) + a1;
    let b2 = fixed_digits(v.2, 2) + b1;
    let a3 = ":"@ + a2;
    let b3 = ":"@ + b2;
    let a4 = fixed_digits(u.1, 2) + a3;
    let b4 = fixed_digits(v.1, 2) + b3;
    let a5 = ":"@ + a4;
    let b5 = ":"@ + b4;
    let a6 = fixed_digits(u.0, 2) + a5;
    let b6 = fixed_digits(v.0, 2) + b5;
    let a7 = " "@ + a6;
    let b7 = " "@ + b6;
    let a8 = fixed_digits(x.2, 2) + a7;
    let b8 = fixed_digits(y.2, 2) + b7;
    let a9 = "-"@ + a8;
    let b9 = "-"@ + b8;
    let a10 = fixed_digits(x.1, 2) + a9;
    let b10 = fixed_digits(y.1, 2) + b9;
    let a11 = "-"@ + a10;
    let b11 = "-"@ + b10;
    if x == y {
        if u == v {
            lemma_field(i, j, 3, none, none);
            assert(a0 + none =~= a0 && b0 + none =~= b0);
            lemma_separator("."@, a0, b0);
        }
        if u.0 == v.0 && u.1 == v.1 {
            lemma_field(u.2, v.2, 2, a1, b1);
            lemma_separator(":"@, a2, b2);
        }
        if u.0 == v.0 {
            lemma_field(u.1, v.1, 2, a3, b3);
            lemma_separator(":"@, a4, b4);
        }
        lemma_field(u.0, v.0, 2, a5, b5);
        lemma_separator(" "@, a6, b6);
    }
    if x.0 == y.0 && x.1 == y.1 {
        lemma_field(x.2, y.2, 2, a7, b7);
        lemma_separator("-"@, a8, b8);
    }
    if x.0 == y.0 {
        lemma_field(x.1, y.1, 2, a9, b9);
        lemma_separator("-"@, a10, b10);
    }
    lemma_field(x.0, y.0, 4, a11, b11);
}

/// A character of a timestamp.
pub open spec fn is_digit(c: char) -> bool {
    '0' <= c <= '9'
}

/// Up to the year 9999 a timestamp has the shape `YYYY-MM-DD HH:MM:SS.mmm`, 23 characters.
pub proof fn law_timestamps_have_one_shape(t: UnixTime)
    requires
        t.wf(),
        t.secs < year_10000(),
    ensures
        time_stamp(t).len() == 23,
        time_stamp(t)[4] == '-',
        time_stamp(t)[7] == '-',
        time_stamp(t)[10] == ' ',
        time_stamp(t)[13] == ':',
        time_stamp(t)[16] == ':',
        time_stamp(t)[19] == '.',
        forall|i: int|
            0 <= i < 23 && i != 4 && i != 7 && i != 10 && i != 13 && i != 16 && i != 19
                ==> is_digit(#[trigger] time_stamp(t)[i]),
{
    reveal_strlit("-");
    reveal_strlit(" ");
    reveal_strlit(":");
    reveal_strlit(".");
    assert(text::ten_to(2) == 100 && text::ten_to(3) == 1000 && text::ten_to(4) == 10_000) by {
        reveal_with_fuel(text::ten_to, 5);
    }
    lemma_date_exists(t.secs as int / 86_400);
    lemma_stamp_parts(t);
    let date = date_of(t.secs as int / 86_400);
    let rem = t.secs as int % 86_400;
    lemma_fixed_digits(date.0, 4);
    lemma_fixed_digits(date.1, 2);
    lemma_fixed_digits(date.2, 2);
    lemma_fixed_digits(rem / 3600, 2);
    lemma_fixed_digits((rem % 3600) / 60, 2);
    lemma_fixed_digits(rem % 60, 2);
    lemma_fixed_digits(t.millis as int, 3);
}

/// A number that fits its field is all digits, one for each place.
proof fn lemma_fixed_digits(n: int, width: int)
    requires
        width > 0,
        0 <= n < text::ten_to(width as nat),
    ensures
        fixed_digits(n, width).len() == width,
        forall|i: int| 0 <= i < width ==> is_digit(#[trigger] fixed_digits(n, width)[i]),
{
    text::lemma_padded_in_order(n as nat, n as nat, width as nat);
    text::lemma_decimal_digits(n as nat);
    let fill = text::repeated('0', width - text::decimal(n as nat).len());
    assert forall|i: int| 0 <= i < width implies is_digit(
        #[trigger] fixed_digits(n, width)[i],
    ) by {
        if i >= fill.len() {
            assert(fixed_digits(n, width)[i] == text::decimal(n as nat)[i - fill.len()]);
        }
    }
}

/// The epoch in words.
proof fn lemma_epoch_stamp()
    ensures
        time_stamp(UnixTime { secs: 0, millis: 0 }) == "1970-01-01 00:00:00.000"@,
{
    reveal_strlit("-");
    reveal_strlit(" ");
    reveal_strlit(":");
    reveal_strlit(".");
    reveal_strlit("1970-01-01 00:00:00.000");
    assert(day_number(1970, 1, 1) == 0);
    lemma_date_of(0, (1970, 1, 1));
    reveal_with_fuel(text::decimal, 5);
    assert(text::decimal(1970) =~= seq!['1', '9', '7', '0']);
    assert(fixed_digits(1970, 4) =~= seq!['1', '9', '7', '0']);
    assert(fixed_digits(1, 2) =~= seq!['0', '1']);
    assert(fixed_digits(0, 2) =~= seq!['0', '0']);
    assert(fixed_digits(0, 3) =~= seq!['0', '0', '0']);
    lemma_stamp_parts(UnixTime { secs: 0, millis: 0 });
    assert(parts_of_stamp(UnixTime { secs: 0, millis: 0 }) =~= "1970-01-01 00:00:00.000"@);
}

/// How important a log record is.
#[derive(Debug, Clone, Copy, PartialEq, Eq, Structural)]
pub enum Level {
    Error,
    Warn,
    Info,
    Debug,
    Trace,
}

impl Level {
    /// Rank from the most to the least important.
    pub open spec fn rank(self) -> int {
        match self {
            Level::Error => 1,
            Level::Warn => 2,
            Level::Info => 3,
            Level::Debug => 4,
            Level::Trace => 5,
        }
    }

    /// The name that a log line shows.
    pub open spec fn name(self) -> Seq<char> {
        match self {
            Level::Error => "ERROR"@,
            Level::Warn => "WARN"@,
            Level::Info => "INFO"@,
            Level::Debug => "DEBUG"@,
            Level::Trace => "TRACE"@,
        }
    }

    fn number(self) -> (r: u8)
        ensures
            r == self.rank(),
    {
        match self {
            Level::Error => 1,
            Level::Warn => 2,
            Level::Info => 3,
            Level::Debug => 4,
            Level::Trace => 5,
        }
    }

    /// The name that a log line shows.
    pub fn label(self) -> (r: &'static str)
        ensures
            r@ == self.name(),
    {
        match self {
            Level::Error => "ERROR",
            Level::Warn => "WARN",
            Level::Info => "INFO",
            Level::Debug => "DEBUG",
            Level::Trace => "TRACE",
        }
    }
}

/// One line of the log file, without its line break.
pub open spec fn log_line(now: UnixTime, level: Level, message: Seq<char>) -> Seq<char> {
    "["@ + time_stamp(now) + "] ["@ + text::pad_right(level.name(), ' ', 6) + "] | "@ + message
}

/// The least important level that is kept.
pub open spec fn least_kept(debug: bool) -> Level {
    if debug {
        Level::Debug
    } else {
        Level::Info
    }
}

/// The log file's filter and line format.
#[derive(Debug, Clone, Copy)]
pub struct FileLogger {
    pub level: Level,
}

impl FileLogger {
    /// Whether a record of this level is kept.
    pub open spec fn keeps(self, level: Level) -> bool {
        level.rank() <= self.level.rank()
    }

    /// Debug records are kept only when asked for.
    pub fn new(debug: bool) -> (r: Self)
        ensures
            r.level == if debug {
                Level::Debug
            } else {
                Level::Info
            },
            r.level == least_kept(debug),
    {
        FileLogger { level: if debug { Level::Debug } else { Level::Info } }
    }

    /// Whether a record of this level is kept.
    pub fn enabled(&self, level: Level) -> (r: bool)
        ensures
            r == (level.rank() <= self.level.rank()),
            r == self.keeps(level),
    {
        level.number() <= self.level.number()
    }

    /// The line to write for a record, if it is kept.
    pub fn log(&self, now: Option<UnixTime>, level: Level, message: &str) -> (r: Option<String>)
        ensures
            r is Some <==> level.rank() <= self.level.rank(),
            r is Some <==> self.keeps(level),
            r matches Some(line) ==> line@ == log_line(since_epoch(now), level, message@),
    {
        if !self.enabled(level) {
            return None;
        }
        let mut out = String::from_str("[");
        out.append(format_time(now).as_str());
        out.append("] [");
        out.append(text::align_left(level.label(), 6).as_str());
        out.append("] | ");
        out.append(message);
        Some(out)
    }
}

/// The calendar repeats every 400 years, of 146,097 days, and starts counting on 1 January 1970.
pub proof fn law_calendar_repeats_every_400_years(y: int, m: int, d: int)
    ensures
        days_in_month(y + 400, m) == days_in_month(y, m),
        1 <= m <= 12 ==> day_number(y + 400, m, d) == day_number(y, m, d) + 146_097,
        day_number(1970, 1, 1) == 0,
        day_number(2000, 3, 1) == 11_017,
{
    lemma_era(y, 1);
    lemma_month_starts(y);
    lemma_month_starts(y + 400);
    lemma_month_starts(2000);
}

/// One day after another: the next day of a month, the first of the next month after the last of
/// one, and New Year's Day after the last of December, each have the next number.
pub proof fn law_each_day_has_the_next_number(y: int, m: int, d: int)
    requires
        valid_date(y, m, d),
    ensures
        day_number(y, m, d + 1) == day_number(y, m, d) + 1,
        m < 12 && d == days_in_month(y, m) ==> day_number(y, m + 1, 1) == day_number(y, m, d) + 1,
        m == 12 && d == 31 ==> day_number(y + 1, 1, 1) == day_number(y, m, d) + 1,
{
    law_years_join_up(y);
    lemma_month_starts(y);
    lemma_month_starts(y + 1);
}

/// The instant at the given time of the given day is shown as just that day and time.
pub proof fn law_timestamp_shows_day_and_time(
    secs: nat,
    date: (int, int, int),
    hour: int,
    minute: int,
    second: int,
)
    requires
        valid_date(date.0, date.1, date.2),
        0 <= hour < 24,
        0 <= minute < 60,
        0 <= second < 60,
        secs == day_number(date.0, date.1, date.2) * 86_400 + hour * 3600 + minute * 60 + second,
    ensures
        seconds_stamp(secs) == text::pad_left(text::decimal(date.0 as nat), '0', 4) + "-"@
            + text::pad_left(text::decimal(date.1 as nat), '0', 2) + "-"@ + text::pad_left(
            text::decimal(date.2 as nat),
            '0',
            2,
        ) + " "@ + text::pad_left(text::decimal(hour as nat), '0', 2) + ":"@ + text::pad_left(
            text::decimal(minute as nat),
            '0',
            2,
        ) + ":"@ + text::pad_left(text::decimal(second as nat), '0', 2),
{
    let days = day_number(date.0, date.1, date.2);
    let rest = hour * 3600 + minute * 60 + second;
    assert(secs / 86_400 == days && secs % 86_400 == rest);
    assert(rest / 3600 == hour && (rest % 3600) / 60 == minute && rest % 60 == second);
    lemma_date_of(days, date);
}

/// Up to the year 9999 the instant can be read off its timestamp: its fields spell a day of the
/// calendar and a time of that day, and together they are the seconds since the epoch.
pub proof fn law_timestamp_reads_back(t: UnixTime)
    requires
        t.wf(),
        t.secs < year_10000(),
    ensures
        ({
            let s = time_stamp(t);
            let year = text::spelled(s.subrange(0, 4));
            let month = text::spelled(s.subrange(5, 7));
            let day = text::spelled(s.subrange(8, 10));
            let hour = text::spelled(s.subrange(11, 13));
            let minute = text::spelled(s.subrange(14, 16));
            let second = text::spelled(s.subrange(17, 19));
            &&& valid_date(year, month, day)
            &&& 0 <= hour < 24 && 0 <= minute < 60 && 0 <= second < 60
            &&& t.secs == day_number(year, month, day) * 86_400 + hour * 3600 + minute * 60 + second
            &&& t.millis == text::spelled(s.subrange(20, 23))
        }),
{
    reveal_strlit("-");
    reveal_strlit(" ");
    reveal_strlit(":");
    reveal_strlit(".");
    assert(text::ten_to(2) == 100 && text::ten_to(3) == 1000 && text::ten_to(4) == 10_000) by {
        reveal_with_fuel(text::ten_to, 5);
    }
    lemma_date_exists(t.secs as int / 86_400);
    lemma_stamp_parts(t);
    let s = time_stamp(t);
    let date = date_of(t.secs as int / 86_400);
    let rem = t.secs as int % 86_400;
    let fields = (rem / 3600, (rem % 3600) / 60, rem % 60);
    lemma_fixed_digits(date.0, 4);
    lemma_fixed_digits(date.1, 2);
    lemma_fixed_digits(date.2, 2);
    lemma_fixed_digits(fields.0, 2);
    lemma_fixed_digits(fields.1, 2);
    lemma_fixed_digits(fields.2, 2);
    lemma_fixed_digits(t.millis as int, 3);
    text::law_padded_numbers_read_back(date.0 as nat, 4);
    text::law_padded_numbers_read_back(date.1 as nat, 2);
    text::law_padded_numbers_read_back(date.2 as nat, 2);
    text::law_padded_numbers_read_back(fields.0 as nat, 2);
    text::law_padded_numbers_read_back(fields.1 as nat, 2);
    text::law_padded_numbers_read_back(fields.2 as nat, 2);
    text::law_padded_numbers_read_back(t.millis as nat, 3);
    assert(s.subrange(0, 4) =~= fixed_digits(date.0, 4));
    assert(s.subrange(5, 7) =~= fixed_digits(date.1, 2));
    assert(s.subrange(8, 10) =~= fixed_digits(date.2, 2));
    assert(s.subrange(11, 13) =~= fixed_digits(fields.0, 2));
    assert(s.subrange(14, 16) =~= fixed_digits(fields.1, 2));
    assert(s.subrange(17, 19) =~= fixed_digits(fields.2, 2));
    assert(s.subrange(20, 23) =~= fixed_digits(t.millis as int, 3));
}

/// An instant is taken as it is, and one before the epoch for the epoch.
pub proof fn law_instants_are_kept(t: UnixTime)
    ensures
        since_epoch(Some(t)) == t,
        since_epoch(None) == (UnixTime { secs: 0, millis: 0 }),
{
}

/// A log line holds the whole timestamp, the level's name in a column of its own, and the whole
/// message at its end.
pub proof fn law_log_line_holds_the_message(now: UnixTime, level: Level, message: Seq<char>)
    ensures
        ({
            let line = log_line(now, level, message);
            let n = time_stamp(now).len() as int;
            &&& line.len() == n + 14 + message.len()
            &&& line[0] == '['
            &&& line.subrange(1, 1 + n) == time_stamp(now)
            &&& line.subrange(n + 4, n + 4 + level.name().len()) == level.name()
            &&& line.subrange(n + 10, n + 14) == "] | "@
            &&& line.skip(n + 14) == message
        }),
{
    reveal_strlit("[");
    reveal_strlit("] [");
    reveal_strlit("] | ");
    lemma_level_names();
    text::law_padding_leaves_the_text_whole(level.name(), ' ', 6);
    let line = log_line(now, level, message);
    let n = time_stamp(now).len() as int;
    let name = text::pad_right(level.name(), ' ', 6);
    assert(line.subrange(1, 1 + n) =~= time_stamp(now));
    assert(line.subrange(n + 4, n + 10) =~= name);
    assert(line.subrange(n + 4, n + 4 + level.name().len()) =~= name.take(
        level.name().len() as int,
    ));
    assert(line.subrange(n + 10, n + 14) =~= "] | "@);
    assert(line.skip(n + 14) =~= message);
}

proof fn lemma_level_names()
    ensures
        Level::Error.name() == seq!['E', 'R', 'R', 'O', 'R'],
        Level::Warn.name() == seq!['W', 'A', 'R', 'N'],
        Level::Info.name() == seq!['I', 'N', 'F', 'O'],
        Level::Debug.name() == seq!['D', 'E', 'B', 'U', 'G'],
        Level::Trace.name() == seq!['T', 'R', 'A', 'C', 'E'],
{
    reveal_strlit("ERROR");
    reveal_strlit("WARN");
    reveal_strlit("INFO");
    reveal_strlit("DEBUG");
    reveal_strlit("TRACE");
    assert(Level::Error.name() =~= seq!['E', 'R', 'R', 'O', 'R']);
    assert(Level::Warn.name() =~= seq!['W', 'A', 'R', 'N']);
    assert(Level::Info.name() =~= seq!['I', 'N', 'F', 'O']);
    assert(Level::Debug.name() =~= seq!['D', 'E', 'B', 'U', 'G']);
    assert(Level::Trace.name() =~= seq!['T', 'R', 'A', 'C', 'E']);
}

/// No two levels share a name or a rank. A log that keeps debug records leaves out only traces; one
/// that does not leaves debug records out too, and nothing else.
pub proof fn law_levels_are_told_apart(a: Level, b: Level)
    ensures
        a.name() == b.name() <==> a == b,
        a.rank() == b.rank() <==> a == b,
        a.rank() <= Level::Debug.rank() <==> !(a is Trace),
        a.rank() <= Level::Info.rank() <==> !(a is Trace) && !(a is Debug),
        a.rank() <= Level::Warn.rank() <==> a is Warn || a is Error,
        a.rank() <= Level::Error.rank() <==> a is Error,
{
    lemma_level_names();
    assert(a.name()[0] == b.name()[0] ==> a == b);
}

/// Errors, warnings and information are always kept, debug records if asked for, and traces never.
pub proof fn law_what_the_log_keeps(level: Level)
    ensures
        (FileLogger { level: least_kept(false) }).keeps(level) <==> level is Error || level is Warn
            || level is Info,
        (FileLogger { level: least_kept(true) }).keeps(level) <==> !(level is Trace),
{
}

/// Which days there are: the first 28 of every month, the 29th and 30th of every month but February,
/// the 31st of seven months, and the 29th of February every fourth year, but of the years that end a
/// century only in every fourth.
pub proof fn law_which_days_there_are(y: int, m: int, d: int)
    ensures
        valid_date(y, m, d) <==> {
            &&& 1 <= m <= 12
            &&& {
                ||| 1 <= d <= 28
                ||| 29 <= d <= 30 && m != 2
                ||| d == 31 && (m == 1 || m == 3 || m == 5 || m == 7 || m == 8 || m == 10 || m == 12)
                ||| d == 29 && m == 2 && (if y % 100 == 0 {
                    y % 400 == 0
                } else {
                    y % 4 == 0
                })
            }
        },
        days_in_month(y, 1) + days_in_month(y, 2) + days_in_month(y, 3) + days_in_month(y, 4)
            + days_in_month(y, 5) + days_in_month(y, 6) + days_in_month(y, 7) + days_in_month(y, 8)
            + days_in_month(y, 9) + days_in_month(y, 10) + days_in_month(y, 11) + days_in_month(
            y,
            12,
        ) == days_in_year(y),
        m < 1 || m > 12 ==> days_in_month(y, m) == 0,
{
    assert(y % 100 == 0 ==> y % 4 == 0);
}

} // verus!
