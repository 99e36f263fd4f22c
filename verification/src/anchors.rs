//! Anchors: sub-expressions that snap a computed instant to a specific
//! field value ("at :15", "at 9:30", "at Monday 8"), each optionally
//! nesting a strictly finer anchor. Applying an anchor keeps every field
//! coarser than itself and zeroes every finer field unless the nested
//! anchor overrides it.
use vstd::prelude::*;

use crate::date::{
    add_days, date_weekday, days_before_year, days_in_month, days_in_month_of, weekday_of, Instant,
};
use crate::errors::{ErrorCause, ParseError};
use crate::text::{dec_text, push_decimal, push_signed_decimal, push_two_digits, signed_dec_text,
    two_digit_text};

verus! {

use vstd::string::*;

/// The text a weekday renders as.
pub open spec fn weekday_text(w: int) -> Seq<char> {
    if w == 1 {
        "Mon"@
    } else if w == 2 {
        "Tue"@
    } else if w == 3 {
        "Wed"@
    } else if w == 4 {
        "Thu"@
    } else if w == 5 {
        "Fri"@
    } else if w == 6 {
        "Sat"@
    } else {
        "Sun"@
    }
}

fn weekday_str(w: u32) -> (r: &'static str)
    requires
        1 <= w <= 7,
    ensures
        r@ == weekday_text(w as int),
{
    if w == 1 {
        "Mon"
    } else if w == 2 {
        "Tue"
    } else if w == 3 {
        "Wed"
    } else if w == 4 {
        "Thu"
    } else if w == 5 {
        "Fri"
    } else if w == 6 {
        "Sat"
    } else {
        "Sun"
    }
}

/// Second anchor: set the seconds field.
pub struct AtSec(pub u32);

/// Minute anchor: set the minute, zero the seconds, then apply the nested
/// second anchor if present.
pub struct AtMin(pub u32, pub Option<AtSec>);

/// Hour anchor: set the hour, zero minute and second, then apply the
/// nested minute anchor if present.
pub struct AtHour(pub u32, pub Option<AtMin>);

/// Day-of-month anchor: set the day, zero the time of day, then apply the
/// nested hour anchor if present. Fails when the month is shorter.
pub struct AtDay(pub u32, pub Option<AtHour>);

/// Weekday anchor: move to the given weekday (Monday as 1 through Sunday
/// as 7) within the current week, zero the time of day, then apply the
/// nested hour anchor if present.
pub struct AtWeekDay(pub u32, pub Option<AtHour>);

/// Nth-weekday-of-month anchor: the n-th occurrence of a weekday counted
/// from the start of the month when n > 0, or from its end when n < 0.
pub struct AtNthWeekDay(pub i32, pub u32, pub Option<AtHour>);

/// The anchor forms an "at" clause under a week offset can take.
pub enum WeekSub {
    AtHour(AtHour),
    AtWeekDay(AtWeekDay),
}

/// The anchor forms an "at" clause under a month offset can take.
pub enum MonthSub {
    AtDay(AtDay),
    AtNthWeekDay(AtNthWeekDay),
    AtHour(AtHour),
}

/// Hour a nested hour anchor sets, 0 when there is none.
pub open spec fn oh_hour(o: Option<AtHour>) -> int {
    match o {
        Some(h) => h.0 as int,
        None => 0,
    }
}

pub open spec fn oh_minute(o: Option<AtHour>) -> int {
    match o {
        Some(h) => h.minute_of(),
        None => 0,
    }
}

pub open spec fn oh_second(o: Option<AtHour>) -> int {
    match o {
        Some(h) => h.second_of(),
        None => 0,
    }
}

impl AtSec {
    pub open spec fn wf(self) -> bool {
        self.0 < 60
    }

    /// The instant the anchor maps `d` to.
    pub open spec fn ok_at(self, d: Instant, r: Instant) -> bool {
        r.same_date(d) && r.hour == d.hour && r.minute == d.minute && r.second == self.0
    }

    pub fn at(&self, d: &Instant) -> (r: Instant)
        requires
            d.wf(),
            self.wf(),
        ensures
            r.wf(),
            self.ok_at(*d, r),
    {
        Instant { second: self.0, ..*d }
    }
}

impl AtMin {
    pub open spec fn wf(self) -> bool {
        &&& self.0 < 60
        &&& match self.1 {
            Some(s) => s.wf(),
            None => true,
        }
    }

    pub open spec fn second_of(self) -> int {
        match self.1 {
            Some(s) => s.0 as int,
            None => 0,
        }
    }

    /// The instant the anchor maps `d` to.
    pub open spec fn ok_at(self, d: Instant, r: Instant) -> bool {
        r.same_date(d) && r.hour == d.hour && r.minute == self.0 && r.second == self.second_of()
    }

    pub fn at(&self, d: &Instant) -> (r: Instant)
        requires
            d.wf(),
            self.wf(),
        ensures
            r.wf(),
            self.ok_at(*d, r),
    {
        let base = Instant { minute: self.0, second: 0, ..*d };
        match &self.1 {
            Some(s) => s.at(&base),
            None => base,
        }
    }
}

impl AtHour {
    pub open spec fn wf(self) -> bool {
        &&& self.0 < 24
        &&& match self.1 {
            Some(m) => m.wf(),
            None => true,
        }
    }

    pub open spec fn minute_of(self) -> int {
        match self.1 {
            Some(m) => m.0 as int,
            None => 0,
        }
    }

    pub open spec fn second_of(self) -> int {
        match self.1 {
            Some(m) => m.second_of(),
            None => 0,
        }
    }

    /// The instant the anchor maps `d` to.
    pub open spec fn ok_at(self, d: Instant, r: Instant) -> bool {
        r.same_date(d) && r.hour == self.0 && r.minute == self.minute_of() && r.second
            == self.second_of()
    }

    pub fn at(&self, d: &Instant) -> (r: Instant)
        requires
            d.wf(),
            self.wf(),
        ensures
            r.wf(),
            self.ok_at(*d, r),
    {
        let base = Instant { hour: self.0, minute: 0, second: 0, ..*d };
        match &self.1 {
            Some(m) => m.at(&base),
            None => base,
        }
    }
}

impl AtDay {
    pub open spec fn wf(self) -> bool {
        &&& 1 <= self.0 <= 31
        &&& match self.1 {
            Some(h) => h.wf(),
            None => true,
        }
    }

    /// The instant the anchor maps `d` to, when the month is long enough.
    pub open spec fn ok_at(self, d: Instant, r: Instant) -> bool {
        &&& self.0 <= days_in_month_of(d.year as int, d.month as int)
        &&& r.year == d.year
        &&& r.month == d.month
        &&& r.day == self.0
        &&& r.hour == oh_hour(self.1)
        &&& r.minute == oh_minute(self.1)
        &&& r.second == oh_second(self.1)
    }

    /// The cause under which applying the anchor to `d` fails.
    pub open spec fn err_at(self, d: Instant, c: ErrorCause) -> bool {
        self.0 > days_in_month_of(d.year as int, d.month as int) && c == ErrorCause::DayOutOfRange
    }

    pub fn at(&self, d: &Instant) -> (r: Result<Instant, ParseError>)
        requires
            d.wf(),
            self.wf(),
        ensures
            match r {
                Ok(j) => j.wf() && self.ok_at(*d, j),
                Err(e) => self.err_at(*d, e.cause),
            },
    {
        if self.0 > days_in_month(d.year, d.month) {
            return Err(ParseError::new(ErrorCause::DayOutOfRange));
        }
        let base = Instant { day: self.0, hour: 0, minute: 0, second: 0, ..*d };
        match &self.1 {
            Some(h) => Ok(h.at(&base)),
            None => Ok(base),
        }
    }
}

impl AtWeekDay {
    pub open spec fn wf(self) -> bool {
        &&& 1 <= self.0 <= 7
        &&& match self.1 {
            Some(h) => h.wf(),
            None => true,
        }
    }

    /// Day number the anchor moves `d` to: the occurrence of the requested
    /// weekday within the week of `d`.
    pub open spec fn target_epoch(self, d: Instant) -> int {
        d.epoch_day() - d.weekday_number() + self.0
    }

    /// The instant the anchor maps `d` to, when it stays on the calendar.
    pub open spec fn ok_at(self, d: Instant, r: Instant) -> bool {
        &&& r.epoch_day() == self.target_epoch(d)
        &&& r.hour == oh_hour(self.1)
        &&& r.minute == oh_minute(self.1)
        &&& r.second == oh_second(self.1)
    }

    /// The cause under which applying the anchor to `d` fails.
    pub open spec fn err_at(self, d: Instant, c: ErrorCause) -> bool {
        !(0 <= self.target_epoch(d) < days_before_year(10000)) && c == ErrorCause::OutOfRange
    }

    pub fn at(&self, d: &Instant) -> (r: Result<Instant, ParseError>)
        requires
            d.wf(),
            self.wf(),
        ensures
            match r {
                Ok(j) => j.wf() && self.ok_at(*d, j),
                Err(e) => self.err_at(*d, e.cause),
            },
    {
        let wd = weekday_of(d);
        let delta: i64 = self.0 as i64 - wd as i64;
        match add_days(d, delta) {
            Some(moved) => {
                let base = Instant { hour: 0, minute: 0, second: 0, ..moved };
                match &self.1 {
                    Some(h) => Ok(h.at(&base)),
                    None => Ok(base),
                }
            },
            None => Err(ParseError::new(ErrorCause::OutOfRange)),
        }
    }
}

impl AtNthWeekDay {
    pub open spec fn wf(self) -> bool {
        &&& -9 <= self.0 <= 9
        &&& 1 <= self.1 <= 7
        &&& match self.2 {
            Some(h) => h.wf(),
            None => true,
        }
    }

    /// Day of the month of the n-th occurrence of the requested weekday:
    /// counted from the first day of the month for n > 0, and backward
    /// from its last day for n < 0. The result may fall outside the month,
    /// in which case the occurrence does not exist.
    pub open spec fn nth_day(self, d: Instant) -> int {
        let y = d.year as int;
        let m = d.month as int;
        if self.0 > 0 {
            1 + (self.1 - date_weekday(y, m, 1) + 7) % 7 + 7 * (self.0 - 1)
        } else {
            let last = days_in_month_of(y, m);
            last - (date_weekday(y, m, last) - self.1 + 7) % 7 + 7 * (self.0 + 1)
        }
    }

    /// The instant the anchor maps `d` to, when the occurrence exists.
    pub open spec fn ok_at(self, d: Instant, r: Instant) -> bool {
        &&& self.0 != 0
        &&& 1 <= self.nth_day(d) <= days_in_month_of(d.year as int, d.month as int)
        &&& r.year == d.year
        &&& r.month == d.month
        &&& r.day == self.nth_day(d)
        &&& r.hour == oh_hour(self.2)
        &&& r.minute == oh_minute(self.2)
        &&& r.second == oh_second(self.2)
    }

    /// The cause under which applying the anchor to `d` fails.
    pub open spec fn err_at(self, d: Instant, c: ErrorCause) -> bool {
        &&& (self.0 == 0 || !(1 <= self.nth_day(d) <= days_in_month_of(
            d.year as int,
            d.month as int,
        )))
        &&& c == ErrorCause::NoSuchOccurrence
    }

    pub fn at(&self, d: &Instant) -> (r: Result<Instant, ParseError>)
        requires
            d.wf(),
            self.wf(),
        ensures
            match r {
                Ok(j) => j.wf() && self.ok_at(*d, j),
                Err(e) => self.err_at(*d, e.cause),
            },
    {
        if self.0 == 0 {
            return Err(ParseError::new(ErrorCause::NoSuchOccurrence));
        }
        let dim = days_in_month(d.year, d.month);
        let day: i64 = if self.0 > 0 {
            let first = Instant { day: 1, ..*d };
            let fw = weekday_of(&first);
            let off: u32 = (self.1 + 7 - fw) % 7;
            1 + off as i64 + 7 * (self.0 as i64 - 1)
        } else {
            let last = Instant { day: dim, ..*d };
            let lw = weekday_of(&last);
            let back: u32 = (lw + 7 - self.1) % 7;
            dim as i64 - back as i64 + 7 * (self.0 as i64 + 1)
        };
        if day < 1 || day > dim as i64 {
            return Err(ParseError::new(ErrorCause::NoSuchOccurrence));
        }
        let base = Instant { day: day as u32, hour: 0, minute: 0, second: 0, ..*d };
        match &self.2 {
            Some(h) => Ok(h.at(&base)),
            None => Ok(base),
        }
    }
}

impl WeekSub {
    pub open spec fn wf(self) -> bool {
        match self {
            WeekSub::AtHour(a) => a.wf(),
            WeekSub::AtWeekDay(a) => a.wf(),
        }
    }

    /// The instant the clause maps `d` to.
    pub open spec fn ok_at(self, d: Instant, r: Instant) -> bool {
        match self {
            WeekSub::AtHour(a) => a.ok_at(d, r),
            WeekSub::AtWeekDay(a) => a.ok_at(d, r),
        }
    }

    /// The cause under which applying the clause to `d` fails.
    pub open spec fn err_at(self, d: Instant, c: ErrorCause) -> bool {
        match self {
            WeekSub::AtHour(a) => false,
            WeekSub::AtWeekDay(a) => a.err_at(d, c),
        }
    }

    pub fn at(&self, d: &Instant) -> (r: Result<Instant, ParseError>)
        requires
            d.wf(),
            self.wf(),
        ensures
            match r {
                Ok(j) => j.wf() && self.ok_at(*d, j),
                Err(e) => self.err_at(*d, e.cause),
            },
    {
        match self {
            WeekSub::AtHour(a) => Ok(a.at(d)),
            WeekSub::AtWeekDay(a) => a.at(d),
        }
    }
}

impl MonthSub {
    pub open spec fn wf(self) -> bool {
        match self {
            MonthSub::AtDay(a) => a.wf(),
            MonthSub::AtNthWeekDay(a) => a.wf(),
            MonthSub::AtHour(a) => a.wf(),
        }
    }

    /// The instant the clause maps `d` to.
    pub open spec fn ok_at(self, d: Instant, r: Instant) -> bool {
        match self {
            MonthSub::AtDay(a) => a.ok_at(d, r),
            MonthSub::AtNthWeekDay(a) => a.ok_at(d, r),
            MonthSub::AtHour(a) => a.ok_at(d, r),
        }
    }

    /// The cause under which applying the clause to `d` fails.
    pub open spec fn err_at(self, d: Instant, c: ErrorCause) -> bool {
        match self {
            MonthSub::AtDay(a) => a.err_at(d, c),
            MonthSub::AtNthWeekDay(a) => a.err_at(d, c),
            MonthSub::AtHour(a) => false,
        }
    }

    pub fn at(&self, d: &Instant) -> (r: Result<Instant, ParseError>)
        requires
            d.wf(),
            self.wf(),
        ensures
            match r {
                Ok(j) => j.wf() && self.ok_at(*d, j),
                Err(e) => self.err_at(*d, e.cause),
            },
    {
        match self {
            MonthSub::AtDay(a) => a.at(d),
            MonthSub::AtNthWeekDay(a) => a.at(d),
            MonthSub::AtHour(a) => Ok(a.at(d)),
        }
    }
}


impl AtSec {
    /// The canonical text of the anchor.
    pub open spec fn text(self) -> Seq<char> {
        ":"@ + two_digit_text(self.0 as int)
    }

    pub fn to_text(&self) -> (r: String)
        requires
            self.wf(),
        ensures
            r@ == self.text(),
    {
        let mut s = String::new();
        s.append(":");
        push_two_digits(&mut s, self.0);
        proof {
            assert(s@ =~= self.text());
        }
        s
    }
}

impl AtMin {
    /// The canonical text of the anchor.
    pub open spec fn text(self) -> Seq<char> {
        ":"@ + two_digit_text(self.0 as int) + (match self.1 {
            None => ":00"@,
            Some(a) => a.text(),
        })
    }

    pub fn to_text(&self) -> (r: String)
        requires
            self.wf(),
        ensures
            r@ == self.text(),
    {
        let mut s = String::new();
        s.append(":");
        push_two_digits(&mut s, self.0);
        match &self.1 {
            None => s.append(":00"),
            Some(a) => {
                let sub = a.to_text();
                s.append(sub.as_str());
            },
        }
        proof {
            assert(s@ =~= self.text());
        }
        s
    }
}

impl AtHour {
    /// The canonical text of the anchor.
    pub open spec fn text(self) -> Seq<char> {
        two_digit_text(self.0 as int) + (match self.1 {
            None => ":00:00"@,
            Some(m) => m.text(),
        })
    }

    pub fn to_text(&self) -> (r: String)
        requires
            self.wf(),
        ensures
            r@ == self.text(),
    {
        let mut s = String::new();
        push_two_digits(&mut s, self.0);
        match &self.1 {
            None => s.append(":00:00"),
            Some(m) => {
                let sub = m.to_text();
                s.append(sub.as_str());
            },
        }
        proof {
            assert(s@ =~= self.text());
        }
        s
    }
}

/// The text of an optional nested hour anchor, a zero time of day when
/// there is none.
pub open spec fn oh_text(o: Option<AtHour>) -> Seq<char> {
    match o {
        None => "00:00:00"@,
        Some(h) => h.text(),
    }
}

fn push_oh_text(s: &mut String, o: &Option<AtHour>)
    requires
        match *o {
            Some(h) => h.wf(),
            None => true,
        },
    ensures
        final(s)@ == old(s)@ + oh_text(*o),
{
    match o {
        None => s.append("00:00:00"),
        Some(h) => {
            let sub = h.to_text();
            s.append(sub.as_str());
        },
    }
}

impl AtDay {
    /// The canonical text of the anchor.
    pub open spec fn text(self) -> Seq<char> {
        dec_text(self.0 as int) + ". "@ + oh_text(self.1)
    }

    pub fn to_text(&self) -> (r: String)
        requires
            self.wf(),
        ensures
            r@ == self.text(),
    {
        let mut s = String::new();
        push_decimal(&mut s, self.0 as u64);
        s.append(". ");
        push_oh_text(&mut s, &self.1);
        proof {
            assert(s@ =~= self.text());
        }
        s
    }
}

impl AtWeekDay {
    /// The canonical text of the anchor.
    pub open spec fn text(self) -> Seq<char> {
        weekday_text(self.0 as int) + " "@ + oh_text(self.1)
    }

    pub fn to_text(&self) -> (r: String)
        requires
            self.wf(),
        ensures
            r@ == self.text(),
    {
        let mut s = String::new();
        s.append(weekday_str(self.0));
        s.append(" ");
        push_oh_text(&mut s, &self.1);
        proof {
            assert(s@ =~= self.text());
        }
        s
    }
}

impl AtNthWeekDay {
    /// The canonical text of the anchor.
    pub open spec fn text(self) -> Seq<char> {
        signed_dec_text(self.0 as int) + ". "@ + weekday_text(self.1 as int) + " "@ + oh_text(
            self.2,
        )
    }

    pub fn to_text(&self) -> (r: String)
        requires
            self.wf(),
        ensures
            r@ == self.text(),
    {
        let mut s = String::new();
        push_signed_decimal(&mut s, self.0 as i64);
        s.append(". ");
        s.append(weekday_str(self.1));
        s.append(" ");
        push_oh_text(&mut s, &self.2);
        proof {
            assert(s@ =~= self.text());
        }
        s
    }
}

impl WeekSub {
    /// The canonical text of the clause.
    pub open spec fn text(self) -> Seq<char> {
        match self {
            WeekSub::AtHour(a) => a.text(),
            WeekSub::AtWeekDay(a) => a.text(),
        }
    }

    pub fn to_text(&self) -> (r: String)
        requires
            self.wf(),
        ensures
            r@ == self.text(),
    {
        match self {
            WeekSub::AtHour(a) => a.to_text(),
            WeekSub::AtWeekDay(a) => a.to_text(),
        }
    }
}

impl MonthSub {
    /// The canonical text of the clause.
    pub open spec fn text(self) -> Seq<char> {
        match self {
            MonthSub::AtDay(a) => a.text(),
            MonthSub::AtNthWeekDay(a) => a.text(),
            MonthSub::AtHour(a) => a.text(),
        }
    }

    pub fn to_text(&self) -> (r: String)
        requires
            self.wf(),
        ensures
            r@ == self.text(),
    {
        match self {
            MonthSub::AtDay(a) => a.to_text(),
            MonthSub::AtNthWeekDay(a) => a.to_text(),
            MonthSub::AtHour(a) => a.to_text(),
        }
    }
}

} // verus!
