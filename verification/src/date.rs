//! Calendar model and verified date arithmetic.
//!
//! Dates are plain field values (year, month, day, hour, minute, second) in
//! the proleptic Gregorian calendar, restricted to the years 0 through 9999.
//! The specification-level model maps a date to its day number counted from
//! the first of January of year 0, and an instant to its second count.
use vstd::prelude::*;

verus! {

pub open spec fn is_leap_year(y: int) -> bool {
    y % 4 == 0 && (y % 100 != 0 || y % 400 == 0)
}

pub open spec fn days_in_year(y: int) -> int {
    if is_leap_year(y) {
        366
    } else {
        365
    }
}

pub open spec fn days_in_month_of(y: int, m: int) -> int {
    if m == 2 {
        if is_leap_year(y) {
            29
        } else {
            28
        }
    } else if m == 4 || m == 6 || m == 9 || m == 11 {
        30
    } else {
        31
    }
}

/// Number of days in all years strictly before year `y`.
pub open spec fn days_before_year(y: nat) -> int
    decreases y,
{
    if y == 0 {
        0
    } else {
        days_before_year((y - 1) as nat) + days_in_year(y - 1)
    }
}

/// Number of days of year `y` that lie in months strictly before month `m`.
pub open spec fn days_before_month(y: int, m: nat) -> int
    decreases m,
{
    if m <= 1 {
        0
    } else {
        days_before_month(y, (m - 1) as nat) + days_in_month_of(y, m - 1)
    }
}

pub open spec fn valid_date(y: int, m: int, d: int) -> bool {
    0 <= y <= 9999 && 1 <= m <= 12 && 1 <= d <= days_in_month_of(y, m)
}

/// A calendar instant with second precision.
#[derive(Clone, Copy, PartialEq, Eq, Structural, Debug)]
pub struct Instant {
    pub year: u32,
    pub month: u32,
    pub day: u32,
    pub hour: u32,
    pub minute: u32,
    pub second: u32,
}

impl Instant {
    pub open spec fn wf(self) -> bool {
        valid_date(self.year as int, self.month as int, self.day as int) && self.hour < 24
            && self.minute < 60 && self.second < 60
    }

    /// Day number of the date part, day 0 being the first of January of year 0.
    pub open spec fn epoch_day(self) -> int {
        days_before_year(self.year as nat) + days_before_month(self.year as int, self.month as nat)
            + self.day - 1
    }

    /// Seconds elapsed from the start of day 0 to this instant.
    pub open spec fn total_seconds(self) -> int {
        self.epoch_day() * 86400 + self.hour * 3600 + self.minute * 60 + self.second
    }

    /// Day of the week, numbered from Monday as 1 through Sunday as 7.
    /// Day 0 of the calendar (0000-01-01) falls on a Saturday.
    pub open spec fn weekday_number(self) -> int {
        (self.epoch_day() + 5) % 7 + 1
    }

    pub open spec fn with_time(self, h: int, mi: int, s: int) -> Instant {
        Instant {
            hour: h as u32,
            minute: mi as u32,
            second: s as u32,
            ..self
        }
    }

    pub open spec fn same_date(self, other: Instant) -> bool {
        self.year == other.year && self.month == other.month && self.day == other.day
    }

    pub open spec fn same_time(self, other: Instant) -> bool {
        self.hour == other.hour && self.minute == other.minute && self.second == other.second
    }
}

/// Day of the week of the given calendar date, Monday as 1 through Sunday
/// as 7.
pub open spec fn date_weekday(y: int, m: int, d: int) -> int {
    (days_before_year(y as nat) + days_before_month(y, m as nat) + d - 1 + 5) % 7 + 1
}

pub proof fn lemma_days_before_year_bounds(y: nat)
    ensures
        365 * y <= days_before_year(y) <= 366 * y,
    decreases y,
{
    if y > 0 {
        lemma_days_before_year_bounds((y - 1) as nat);
    }
}

pub proof fn lemma_days_before_month_bounds(y: int, m: nat)
    requires
        m <= 13,
    ensures
        0 <= days_before_month(y, m) <= 31 * m,
    decreases m,
{
    if m > 0 {
        lemma_days_before_month_bounds(y, (m - 1) as nat);
    }
}

pub proof fn lemma_days_before_year_monotonic(a: nat, b: nat)
    requires
        a <= b,
    ensures
        days_before_year(a) <= days_before_year(b),
        a < b ==> days_before_year(a) + days_in_year(a as int) <= days_before_year(b),
    decreases b,
{
    if a < b {
        lemma_days_before_year_monotonic(a, (b - 1) as nat);
    }
}

pub proof fn lemma_days_before_month_monotonic(y: int, a: nat, b: nat)
    requires
        a <= b,
    ensures
        days_before_month(y, a) <= days_before_month(y, b),
        1 <= a < b ==> days_before_month(y, a) + days_in_month_of(y, a as int)
            <= days_before_month(y, b),
    decreases b,
{
    if a < b {
        lemma_days_before_month_monotonic(y, a, (b - 1) as nat);
    }
}

/// A valid date's day number lies within its year's span of days and,
/// inside that, within its month's span.
pub proof fn lemma_epoch_day_in_spans(i: Instant)
    requires
        i.wf(),
    ensures
        days_before_year(i.year as nat) <= i.epoch_day() < days_before_year(i.year as nat)
            + days_in_year(i.year as int),
        days_before_month(i.year as int, i.month as nat) <= i.epoch_day() - days_before_year(
            i.year as nat,
        ) < days_before_month(i.year as int, (i.month + 1) as nat),
{
    let y = i.year as int;
    lemma_days_before_month_bounds(y, i.month as nat);
    lemma_days_before_month_monotonic(y, (i.month + 1) as nat, 13);
    lemma_year_is_sum_of_months(y);
}

/// Law: a day number names at most one valid date, so the date model
/// pins every resolved instant's calendar fields.
pub proof fn lemma_epoch_day_injective(i: Instant, j: Instant)
    requires
        i.wf(),
        j.wf(),
        i.epoch_day() == j.epoch_day(),
    ensures
        i.same_date(j),
{
    lemma_epoch_day_in_spans(i);
    lemma_epoch_day_in_spans(j);
    if i.year < j.year {
        lemma_days_before_year_monotonic(i.year as nat, j.year as nat);
    }
    if j.year < i.year {
        lemma_days_before_year_monotonic(j.year as nat, i.year as nat);
    }
    assert(i.year == j.year);
    let y = i.year as int;
    if i.month < j.month {
        lemma_days_before_month_monotonic(y, (i.month + 1) as nat, j.month as nat);
    }
    if j.month < i.month {
        lemma_days_before_month_monotonic(y, (j.month + 1) as nat, i.month as nat);
    }
    assert(i.month == j.month);
}

/// Law: a second count names at most one valid instant: two well-formed
/// instants with one second count agree on every field.
pub proof fn lemma_total_seconds_injective(i: Instant, j: Instant)
    requires
        i.wf(),
        j.wf(),
        i.total_seconds() == j.total_seconds(),
    ensures
        i.same_date(j),
        i.same_time(j),
{
    let ti = i.hour * 3600 + i.minute * 60 + i.second;
    let tj = j.hour * 3600 + j.minute * 60 + j.second;
    vstd::arithmetic::div_mod::lemma_fundamental_div_mod_converse(
        i.total_seconds(),
        86400,
        i.epoch_day(),
        ti,
    );
    vstd::arithmetic::div_mod::lemma_fundamental_div_mod_converse(
        j.total_seconds(),
        86400,
        j.epoch_day(),
        tj,
    );
    lemma_epoch_day_injective(i, j);
    vstd::arithmetic::div_mod::lemma_fundamental_div_mod_converse(
        ti,
        3600,
        i.hour as int,
        i.minute * 60 + i.second,
    );
    vstd::arithmetic::div_mod::lemma_fundamental_div_mod_converse(
        tj,
        3600,
        j.hour as int,
        j.minute * 60 + j.second,
    );
    vstd::arithmetic::div_mod::lemma_fundamental_div_mod_converse(
        i.minute * 60 + i.second,
        60,
        i.minute as int,
        i.second as int,
    );
    vstd::arithmetic::div_mod::lemma_fundamental_div_mod_converse(
        j.minute * 60 + j.second,
        60,
        j.minute as int,
        j.second as int,
    );
}

/// The months of year `y` together hold exactly `days_in_year(y)` days.
pub proof fn lemma_year_is_sum_of_months(y: int)
    ensures
        days_before_month(y, 13) == days_in_year(y),
{
    reveal_with_fuel(days_before_month, 14);
}

pub fn is_leap(y: u32) -> (r: bool)
    ensures
        r == is_leap_year(y as int),
{
    y % 4 == 0 && (y % 100 != 0 || y % 400 == 0)
}

fn days_in_year_x(y: u32) -> (r: u32)
    ensures
        r == days_in_year(y as int),
{
    if is_leap(y) {
        366
    } else {
        365
    }
}

/// Number of days of the month `m` of year `y`.
pub fn days_in_month(y: u32, m: u32) -> (r: u32)
    requires
        1 <= m <= 12,
    ensures
        r == days_in_month_of(y as int, m as int),
{
    if m == 2 {
        if is_leap(y) {
            29
        } else {
            28
        }
    } else if m == 4 || m == 6 || m == 9 || m == 11 {
        30
    } else {
        31
    }
}

/// Day number of the date part of `i`, counted from 0000-01-01 as day 0.
pub fn epoch_days(i: &Instant) -> (r: u32)
    requires
        i.wf(),
    ensures
        r == i.epoch_day(),
        r <= 3660036,
{
    let mut sum: u32 = 0;
    let mut y: u32 = 0;
    while y < i.year
        invariant
            y <= i.year <= 9999,
            sum == days_before_year(y as nat),
            sum <= 366 * y,
        decreases i.year - y,
    {
        proof {
            lemma_days_before_year_bounds((y + 1) as nat);
        }
        sum = sum + days_in_year_x(y);
        y = y + 1;
    }
    let mut m: u32 = 1;
    let mut msum: u32 = 0;
    while m < i.month
        invariant
            1 <= m <= i.month <= 12,
            i.wf(),
            msum == days_before_month(i.year as int, m as nat),
            msum <= 31 * m,
        decreases i.month - m,
    {
        msum = msum + days_in_month(i.year, m);
        m = m + 1;
    }
    proof {
        lemma_days_before_year_bounds(i.year as nat);
        lemma_days_before_year_bounds(10000);
        lemma_days_before_month_bounds(i.year as int, i.month as nat);
    }
    sum + msum + (i.day - 1)
}

/// Recover the date with the given day number, if it lies within the
/// supported year range.
pub fn date_of_epoch(n: u32) -> (r: Option<(u32, u32, u32)>)
    ensures
        match r {
            Some(p) => valid_date(p.0 as int, p.1 as int, p.2 as int) && days_before_year(
                p.0 as nat,
            ) + days_before_month(p.0 as int, p.1 as nat) + p.2 - 1 == n,
            None => n >= days_before_year(10000),
        },
{
    let mut y: u32 = 0;
    let mut rem: u32 = n;
    while y < 10000 && rem >= days_in_year_x(y)
        invariant
            y <= 10000,
            days_before_year(y as nat) + rem == n,
        decreases 10000 - y,
    {
        rem = rem - days_in_year_x(y);
        y = y + 1;
    }
    if y == 10000 {
        return None;
    }
    let mut m: u32 = 1;
    while m < 12 && rem >= days_in_month(y, m)
        invariant
            1 <= m <= 12,
            y < 10000,
            days_before_year(y as nat) + days_before_month(y as int, m as nat) + rem == n,
            rem < days_in_year(y as int) - days_before_month(y as int, m as nat),
        decreases 12 - m,
    {
        rem = rem - days_in_month(y, m);
        m = m + 1;
    }
    proof {
        lemma_year_is_sum_of_months(y as int);
    }
    Some((y, m, rem + 1))
}

/// Move the date part of `i` by `delta` days, keeping the time of day.
/// Returns `None` when the result would leave the supported year range.
pub fn add_days(i: &Instant, delta: i64) -> (r: Option<Instant>)
    requires
        i.wf(),
    ensures
        match r {
            Some(j) => j.wf() && j.epoch_day() == i.epoch_day() + delta && j.same_time(*i),
            None => !(0 <= i.epoch_day() + delta < days_before_year(10000)),
        },
{
    let e = epoch_days(i);
    proof {
        lemma_days_before_year_bounds(10000);
    }
    if delta > 3700000 || delta < -3700000 {
        return None;
    }
    let target: i64 = e as i64 + delta;
    if target < 0 || target > 3660036 {
        return None;
    }
    match date_of_epoch(target as u32) {
        Some(p) => Some(
            Instant {
                year: p.0,
                month: p.1,
                day: p.2,
                hour: i.hour,
                minute: i.minute,
                second: i.second,
            },
        ),
        None => None,
    }
}

fn min_u32(a: u32, b: u32) -> (r: u32)
    ensures
        r == if a <= b {
            a as int
        } else {
            b as int
        },
{
    if a <= b {
        a
    } else {
        b
    }
}

/// The calendar relation between an instant and the one `n` months later:
/// the month index advances by `n`, the day is clamped to the length of
/// the target month, and the time of day is kept.
pub open spec fn month_shift(i: Instant, n: int, j: Instant) -> bool {
    let t = i.month - 1 + n;
    &&& j.year == i.year + t / 12
    &&& j.month == t % 12 + 1
    &&& j.day == if i.day <= days_in_month_of(j.year as int, j.month as int) {
        i.day as int
    } else {
        days_in_month_of(j.year as int, j.month as int)
    }
    &&& j.same_time(i)
}

/// Move `i` forward by `n` calendar months, clamping the day of the month
/// to the length of the target month. The time of day is kept.
pub fn add_months(i: &Instant, n: u32) -> (r: Option<Instant>)
    requires
        i.wf(),
    ensures
        match r {
            Some(j) => j.wf() && month_shift(*i, n as int, j) && i.year + (i.month - 1 + n) / 12
                <= 9999,
            None => i.year + (i.month - 1 + n) / 12 > 9999,
        },
{
    let total: u64 = (i.month - 1) as u64 + n as u64;
    let years: u64 = total / 12;
    if years > 9999 - i.year as u64 {
        return None;
    }
    let y2: u32 = i.year + years as u32;
    let m2: u32 = (total % 12) as u32 + 1;
    let d2: u32 = min_u32(i.day, days_in_month(y2, m2));
    Some(Instant { year: y2, month: m2, day: d2, hour: i.hour, minute: i.minute, second: i.second })
}

/// Day of the week of `i`, numbered from Monday as 1 through Sunday as 7.
pub fn weekday_of(i: &Instant) -> (r: u32)
    requires
        i.wf(),
    ensures
        r == i.weekday_number(),
        1 <= r <= 7,
{
    let e = epoch_days(i);
    (e + 5) % 7 + 1
}

/// Move `i` forward by `n` seconds, rolling over into later days as needed.
/// Returns `None` when the result would leave the supported year range.
pub fn add_seconds(i: &Instant, n: u64) -> (r: Option<Instant>)
    requires
        i.wf(),
        n <= 0x1_0000_0000_0000,
    ensures
        match r {
            Some(j) => j.wf() && j.total_seconds() == i.total_seconds() + n,
            None => i.total_seconds() + n >= 86400 * days_before_year(10000),
        },
{
    let tod: u64 = i.hour as u64 * 3600 + i.minute as u64 * 60 + i.second as u64;
    let total: u64 = tod + n;
    let carry_days: u64 = total / 86400;
    let new_tod: u64 = total % 86400;
    proof {
        lemma_days_before_year_bounds(10000);
        vstd::arithmetic::div_mod::lemma_fundamental_div_mod(total as int, 86400);
        vstd::arithmetic::div_mod::lemma_mod_division_less_than_divisor(total as int, 86400);
        assert(carry_days <= 0x1_0000_0000) by (nonlinear_arith)
            requires
                carry_days == total as int / 86400,
                total <= 0x1_0000_0000_0000 + 86400,
        ;
    }
    let h64: u64 = new_tod / 3600;
    let rest: u64 = new_tod % 3600;
    let mi64: u64 = rest / 60;
    let s64: u64 = rest % 60;
    proof {
        vstd::arithmetic::div_mod::lemma_fundamental_div_mod(new_tod as int, 3600);
        vstd::arithmetic::div_mod::lemma_mod_division_less_than_divisor(new_tod as int, 3600);
        vstd::arithmetic::div_mod::lemma_fundamental_div_mod(rest as int, 60);
        vstd::arithmetic::div_mod::lemma_mod_division_less_than_divisor(rest as int, 60);
        assert(h64 < 24) by (nonlinear_arith)
            requires
                h64 == new_tod as int / 3600,
                0 <= new_tod < 86400,
        ;
        assert(mi64 < 60) by (nonlinear_arith)
            requires
                mi64 == rest as int / 60,
                0 <= rest < 3600,
        ;
    }
    let h: u32 = h64 as u32;
    let mi: u32 = mi64 as u32;
    let s: u32 = s64 as u32;
    match add_days(i, carry_days as i64) {
        Some(d) => {
            let j = Instant { hour: h, minute: mi, second: s, ..d };
            proof {
                assert(j.total_seconds() == i.total_seconds() + n) by {
                    assert(j.epoch_day() == i.epoch_day() + carry_days);
                    assert(86400 * (carry_days as int) + new_tod == tod + n);
                    assert(3600 * h + 60 * mi + s == new_tod);
                };
            }
            Some(j)
        },
        None => {
            proof {
                lemma_days_before_year_bounds(i.year as nat);
                lemma_days_before_month_bounds(i.year as int, i.month as nat);
            }
            None
        },
    }
}

} // verus!
