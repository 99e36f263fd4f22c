//! The anchor sub-grammars, as recursive-descent rules over character
//! sequences. Each rule exists twice: a specification-level function that
//! defines the grammar, and an executable parser proved to return exactly
//! what the rule says. A rule consumes its whole (pre-trimmed) window;
//! field values are validated while parsing, so every anchor that parses
//! is well-formed.
use vstd::prelude::*;

use crate::anchors::{AtDay, AtHour, AtMin, AtNthWeekDay, AtSec, AtWeekDay, MonthSub, WeekSub};
use crate::errors::{ErrorCause, ParseError};
use crate::text::{
    digit_end, digit_end_x, digits_to_u32, digits_val, eq_ci, lemma_digit_end_range, letter_end,
    letter_end_x, range_eq_ci, skip_spaces, skip_spaces_x, subvec, trim_spaces, trimmed_chars,
};

verus! {

/// Grammar of a second anchor: `':' digits`, with a value below 60.
pub open spec fn spec_parse_sec(s: Seq<char>) -> Option<AtSec> {
    let e = digit_end(s, 1);
    if s.len() >= 2 && s[0] == ':' && e == s.len() && digits_val(s.subrange(1, e)) < 60 {
        Some(AtSec(digits_val(s.subrange(1, e)) as u32))
    } else {
        None
    }
}

/// Grammar of a minute anchor: `':' digits (second-anchor)?`, minutes below 60.
pub open spec fn spec_parse_min(s: Seq<char>) -> Option<AtMin> {
    let e = digit_end(s, 1);
    if s.len() >= 2 && s[0] == ':' && e > 1 && digits_val(s.subrange(1, e)) < 60 {
        let v = digits_val(s.subrange(1, e)) as u32;
        if e == s.len() {
            Some(AtMin(v, None))
        } else {
            match spec_parse_sec(s.subrange(e, s.len() as int)) {
                Some(a) => Some(AtMin(v, Some(a))),
                None => None,
            }
        }
    } else {
        None
    }
}

/// Grammar of an hour anchor: `digits (minute-anchor)?`, hours below 24.
pub open spec fn spec_parse_hour(s: Seq<char>) -> Option<AtHour> {
    let e = digit_end(s, 0);
    if e > 0 && digits_val(s.subrange(0, e)) < 24 {
        let v = digits_val(s.subrange(0, e)) as u32;
        if e == s.len() {
            Some(AtHour(v, None))
        } else {
            match spec_parse_min(s.subrange(e, s.len() as int)) {
                Some(m) => Some(AtHour(v, Some(m))),
                None => None,
            }
        }
    } else {
        None
    }
}

/// Grammar of a day anchor: `digits '.'? ws* (hour-anchor)?`, day 1 to 31.
pub open spec fn spec_parse_day(s: Seq<char>) -> Option<AtDay> {
    let e = digit_end(s, 0);
    if e > 0 && 1 <= digits_val(s.subrange(0, e)) <= 31 {
        let v = digits_val(s.subrange(0, e)) as u32;
        let p = if e < s.len() && s[e] == '.' {
            e + 1
        } else {
            e
        };
        let q = skip_spaces(s, p);
        if q == s.len() {
            Some(AtDay(v, None))
        } else {
            match spec_parse_hour(s.subrange(q, s.len() as int)) {
                Some(h) => Some(AtDay(v, Some(h))),
                None => None,
            }
        }
    } else {
        None
    }
}

/// The weekday a name token denotes, Monday as 1 through Sunday as 7.
/// Full names and three-letter abbreviations are recognized, case
/// insensitively.
pub open spec fn weekday_of_token(s: Seq<char>) -> Option<u32> {
    if eq_ci(s, "mon"@) || eq_ci(s, "monday"@) {
        Some(1)
    } else if eq_ci(s, "tue"@) || eq_ci(s, "tuesday"@) {
        Some(2)
    } else if eq_ci(s, "wed"@) || eq_ci(s, "wednesday"@) {
        Some(3)
    } else if eq_ci(s, "thu"@) || eq_ci(s, "thursday"@) {
        Some(4)
    } else if eq_ci(s, "fri"@) || eq_ci(s, "friday"@) {
        Some(5)
    } else if eq_ci(s, "sat"@) || eq_ci(s, "saturday"@) {
        Some(6)
    } else if eq_ci(s, "sun"@) || eq_ci(s, "sunday"@) {
        Some(7)
    } else {
        None
    }
}

/// Grammar of a weekday anchor: `weekday-name ws* (hour-anchor)?`.
pub open spec fn spec_parse_weekday(s: Seq<char>) -> Option<AtWeekDay> {
    let le = letter_end(s, 0);
    if le > 0 {
        match weekday_of_token(s.subrange(0, le)) {
            Some(w) => {
                let q = skip_spaces(s, le);
                if q == s.len() {
                    Some(AtWeekDay(w, None))
                } else {
                    match spec_parse_hour(s.subrange(q, s.len() as int)) {
                        Some(h) => Some(AtWeekDay(w, Some(h))),
                        None => None,
                    }
                }
            },
            None => None,
        }
    } else {
        None
    }
}

/// Grammar of an nth-weekday anchor anchored at the window start:
/// `'-'? digit '.'? ws* weekday-name ws* (hour-anchor)?`, count at most 9.
pub open spec fn spec_parse_nth_at(s: Seq<char>) -> Option<AtNthWeekDay> {
    let neg = s.len() > 0 && s[0] == '-';
    let i0: int = if neg {
        1
    } else {
        0
    };
    let e = digit_end(s, i0);
    if e > i0 && digits_val(s.subrange(i0, e)) <= 9 {
        let nv = digits_val(s.subrange(i0, e));
        let n: int = if neg {
            -nv
        } else {
            nv
        };
        let p = if e < s.len() && s[e] == '.' {
            e + 1
        } else {
            e
        };
        let q = skip_spaces(s, p);
        let le = letter_end(s, q);
        if le > q {
            match weekday_of_token(s.subrange(q, le)) {
                Some(w) => {
                    let r2 = skip_spaces(s, le);
                    if r2 == s.len() {
                        Some(AtNthWeekDay(n as i32, w, None))
                    } else {
                        match spec_parse_hour(s.subrange(r2, s.len() as int)) {
                            Some(h) => Some(AtNthWeekDay(n as i32, w, Some(h))),
                            None => None,
                        }
                    }
                },
                None => None,
            }
        } else {
            None
        }
    } else {
        None
    }
}

/// The nth-weekday rule applied at the first window position where it
/// matches, as a search from position `i` on.
pub open spec fn spec_parse_nth_from(s: Seq<char>, i: int) -> Option<AtNthWeekDay>
    decreases s.len() - i,
{
    if !(0 <= i < s.len()) {
        None
    } else {
        let here = spec_parse_nth_at(s.subrange(i, s.len() as int));
        if here is Some {
            here
        } else {
            spec_parse_nth_from(s, i + 1)
        }
    }
}

/// Grammar of an "at" clause under a week offset: a weekday anchor, or
/// else an hour anchor. The first matching alternative wins.
pub open spec fn spec_parse_week_sub(s: Seq<char>) -> Option<WeekSub> {
    match spec_parse_weekday(s) {
        Some(w) => Some(WeekSub::AtWeekDay(w)),
        None => match spec_parse_hour(s) {
            Some(h) => Some(WeekSub::AtHour(h)),
            None => None,
        },
    }
}

/// Grammar of an "at" clause under a month offset: an nth-weekday anchor
/// (found anywhere in the clause), or else an hour anchor, or else a day
/// anchor. The first matching alternative wins.
pub open spec fn spec_parse_month_sub(s: Seq<char>) -> Option<MonthSub> {
    match spec_parse_nth_from(s, 0) {
        Some(a) => Some(MonthSub::AtNthWeekDay(a)),
        None => match spec_parse_hour(s) {
            Some(h) => Some(MonthSub::AtHour(h)),
            None => match spec_parse_day(s) {
                Some(d) => Some(MonthSub::AtDay(d)),
                None => None,
            },
        },
    }
}

pub fn parse_sec_chars(w: &Vec<char>) -> (r: Option<AtSec>)
    ensures
        r == spec_parse_sec(w@),
        match r {
            Some(x) => x.wf(),
            None => true,
        },
{
    let n = w.len();
    if n < 2 || w[0] != ':' {
        return None;
    }
    let e = digit_end_x(w, 1);
    if e != n {
        return None;
    }
    proof {
        lemma_digit_end_range(w@, 1);
    }
    match digits_to_u32(w, 1, e) {
        Some(v) => {
            if v < 60 {
                Some(AtSec(v))
            } else {
                None
            }
        },
        None => None,
    }
}

pub fn parse_min_chars(w: &Vec<char>) -> (r: Option<AtMin>)
    ensures
        r == spec_parse_min(w@),
        match r {
            Some(x) => x.wf(),
            None => true,
        },
{
    let n = w.len();
    if n < 2 || w[0] != ':' {
        return None;
    }
    let e = digit_end_x(w, 1);
    if e == 1 {
        return None;
    }
    proof {
        lemma_digit_end_range(w@, 1);
    }
    let v = match digits_to_u32(w, 1, e) {
        Some(v) => v,
        None => {
            return None;
        },
    };
    if v >= 60 {
        return None;
    }
    if e == n {
        return Some(AtMin(v, None));
    }
    let rest = subvec(w, e, n);
    match parse_sec_chars(&rest) {
        Some(a) => Some(AtMin(v, Some(a))),
        None => None,
    }
}

pub fn parse_hour_chars(w: &Vec<char>) -> (r: Option<AtHour>)
    ensures
        r == spec_parse_hour(w@),
        match r {
            Some(x) => x.wf(),
            None => true,
        },
{
    let n = w.len();
    let e = digit_end_x(w, 0);
    if e == 0 {
        return None;
    }
    proof {
        lemma_digit_end_range(w@, 0);
    }
    let v = match digits_to_u32(w, 0, e) {
        Some(v) => v,
        None => {
            return None;
        },
    };
    if v >= 24 {
        return None;
    }
    if e == n {
        return Some(AtHour(v, None));
    }
    let rest = subvec(w, e, n);
    match parse_min_chars(&rest) {
        Some(m) => Some(AtHour(v, Some(m))),
        None => None,
    }
}

pub fn parse_day_chars(w: &Vec<char>) -> (r: Option<AtDay>)
    ensures
        r == spec_parse_day(w@),
        match r {
            Some(x) => x.wf(),
            None => true,
        },
{
    let n = w.len();
    let e = digit_end_x(w, 0);
    if e == 0 {
        return None;
    }
    proof {
        lemma_digit_end_range(w@, 0);
    }
    let v = match digits_to_u32(w, 0, e) {
        Some(v) => v,
        None => {
            return None;
        },
    };
    if v < 1 || v > 31 {
        return None;
    }
    let p: usize = if e < n && w[e] == '.' {
        e + 1
    } else {
        e
    };
    let q = skip_spaces_x(w, p);
    if q == n {
        return Some(AtDay(v, None));
    }
    let rest = subvec(w, q, n);
    match parse_hour_chars(&rest) {
        Some(h) => Some(AtDay(v, Some(h))),
        None => None,
    }
}

/// The weekday denoted by the name token `w[from..to]`.
pub fn weekday_token_range(w: &Vec<char>, from: usize, to: usize) -> (r: Option<u32>)
    requires
        from <= to <= w@.len(),
    ensures
        r == weekday_of_token(w@.subrange(from as int, to as int)),
        match r {
            Some(x) => 1 <= x <= 7,
            None => true,
        },
{
    if range_eq_ci(w, from, to, "mon") || range_eq_ci(w, from, to, "monday") {
        Some(1)
    } else if range_eq_ci(w, from, to, "tue") || range_eq_ci(w, from, to, "tuesday") {
        Some(2)
    } else if range_eq_ci(w, from, to, "wed") || range_eq_ci(w, from, to, "wednesday") {
        Some(3)
    } else if range_eq_ci(w, from, to, "thu") || range_eq_ci(w, from, to, "thursday") {
        Some(4)
    } else if range_eq_ci(w, from, to, "fri") || range_eq_ci(w, from, to, "friday") {
        Some(5)
    } else if range_eq_ci(w, from, to, "sat") || range_eq_ci(w, from, to, "saturday") {
        Some(6)
    } else if range_eq_ci(w, from, to, "sun") || range_eq_ci(w, from, to, "sunday") {
        Some(7)
    } else {
        None
    }
}

pub fn parse_weekday_chars(w: &Vec<char>) -> (r: Option<AtWeekDay>)
    ensures
        r == spec_parse_weekday(w@),
        match r {
            Some(x) => x.wf(),
            None => true,
        },
{
    let n = w.len();
    let le = letter_end_x(w, 0);
    if le == 0 {
        return None;
    }
    let wd = match weekday_token_range(w, 0, le) {
        Some(x) => x,
        None => {
            return None;
        },
    };
    let q = skip_spaces_x(w, le);
    if q == n {
        return Some(AtWeekDay(wd, None));
    }
    let rest = subvec(w, q, n);
    match parse_hour_chars(&rest) {
        Some(h) => Some(AtWeekDay(wd, Some(h))),
        None => None,
    }
}

pub fn parse_nth_at_chars(w: &Vec<char>) -> (r: Option<AtNthWeekDay>)
    ensures
        r == spec_parse_nth_at(w@),
        match r {
            Some(x) => x.wf(),
            None => true,
        },
{
    let n = w.len();
    let neg: bool = n > 0 && w[0] == '-';
    let i0: usize = if neg {
        1
    } else {
        0
    };
    let e = digit_end_x(w, i0);
    if e == i0 {
        return None;
    }
    proof {
        lemma_digit_end_range(w@, i0 as int);
    }
    let nv = match digits_to_u32(w, i0, e) {
        Some(v) => v,
        None => {
            return None;
        },
    };
    if nv > 9 {
        return None;
    }
    let count: i32 = if neg {
        -(nv as i32)
    } else {
        nv as i32
    };
    let p: usize = if e < n && w[e] == '.' {
        e + 1
    } else {
        e
    };
    let q = skip_spaces_x(w, p);
    let le = letter_end_x(w, q);
    if le == q {
        return None;
    }
    let wd = match weekday_token_range(w, q, le) {
        Some(x) => x,
        None => {
            return None;
        },
    };
    let r2 = skip_spaces_x(w, le);
    if r2 == n {
        return Some(AtNthWeekDay(count, wd, None));
    }
    let rest = subvec(w, r2, n);
    match parse_hour_chars(&rest) {
        Some(h) => Some(AtNthWeekDay(count, wd, Some(h))),
        None => None,
    }
}

/// The nth-weekday rule applied at the first position where it matches.
pub fn parse_nth_search_chars(w: &Vec<char>) -> (r: Option<AtNthWeekDay>)
    ensures
        r == spec_parse_nth_from(w@, 0),
        match r {
            Some(x) => x.wf(),
            None => true,
        },
{
    let n = w.len();
    let mut i: usize = 0;
    while i < n
        invariant
            i <= n,
            n == w@.len(),
            spec_parse_nth_from(w@, 0) == spec_parse_nth_from(w@, i as int),
        decreases n - i,
    {
        let sub = subvec(w, i, n);
        let here = parse_nth_at_chars(&sub);
        match here {
            Some(x) => {
                return Some(x);
            },
            None => {},
        }
        i = i + 1;
    }
    None
}

impl AtSec {
    /// Parse a whole (trimmed) second-anchor clause.
    pub fn from_str(s: &str) -> (r: Result<AtSec, ParseError>)
        ensures
            match r {
                Ok(x) => spec_parse_sec(trim_spaces(s@)) == Some(x) && x.wf(),
                Err(e) => spec_parse_sec(trim_spaces(s@)) is None && e.cause
                    == ErrorCause::MalformedClause,
            },
    {
        let w = trimmed_chars(s);
        match parse_sec_chars(&w) {
            Some(x) => Ok(x),
            None => Err(ParseError::new(ErrorCause::MalformedClause)),
        }
    }
}

impl AtMin {
    /// Parse a whole (trimmed) minute-anchor clause.
    pub fn from_str(s: &str) -> (r: Result<AtMin, ParseError>)
        ensures
            match r {
                Ok(x) => spec_parse_min(trim_spaces(s@)) == Some(x) && x.wf(),
                Err(e) => spec_parse_min(trim_spaces(s@)) is None && e.cause
                    == ErrorCause::MalformedClause,
            },
    {
        let w = trimmed_chars(s);
        match parse_min_chars(&w) {
            Some(x) => Ok(x),
            None => Err(ParseError::new(ErrorCause::MalformedClause)),
        }
    }
}

impl AtHour {
    /// Parse a whole (trimmed) hour-anchor clause.
    pub fn from_str(s: &str) -> (r: Result<AtHour, ParseError>)
        ensures
            match r {
                Ok(x) => spec_parse_hour(trim_spaces(s@)) == Some(x) && x.wf(),
                Err(e) => spec_parse_hour(trim_spaces(s@)) is None && e.cause
                    == ErrorCause::MalformedClause,
            },
    {
        let w = trimmed_chars(s);
        match parse_hour_chars(&w) {
            Some(x) => Ok(x),
            None => Err(ParseError::new(ErrorCause::MalformedClause)),
        }
    }
}

impl AtDay {
    /// Parse a whole (trimmed) day-anchor clause.
    pub fn from_str(s: &str) -> (r: Result<AtDay, ParseError>)
        ensures
            match r {
                Ok(x) => spec_parse_day(trim_spaces(s@)) == Some(x) && x.wf(),
                Err(e) => spec_parse_day(trim_spaces(s@)) is None && e.cause
                    == ErrorCause::MalformedClause,
            },
    {
        let w = trimmed_chars(s);
        match parse_day_chars(&w) {
            Some(x) => Ok(x),
            None => Err(ParseError::new(ErrorCause::MalformedClause)),
        }
    }
}

impl AtWeekDay {
    /// Parse a whole (trimmed) weekday-anchor clause.
    pub fn from_str(s: &str) -> (r: Result<AtWeekDay, ParseError>)
        ensures
            match r {
                Ok(x) => spec_parse_weekday(trim_spaces(s@)) == Some(x) && x.wf(),
                Err(e) => spec_parse_weekday(trim_spaces(s@)) is None && e.cause
                    == ErrorCause::MalformedClause,
            },
    {
        let w = trimmed_chars(s);
        match parse_weekday_chars(&w) {
            Some(x) => Ok(x),
            None => Err(ParseError::new(ErrorCause::MalformedClause)),
        }
    }
}

impl AtNthWeekDay {
    /// Parse a whole (trimmed) nth-weekday-anchor clause.
    pub fn from_str(s: &str) -> (r: Result<AtNthWeekDay, ParseError>)
        ensures
            match r {
                Ok(x) => spec_parse_nth_from(trim_spaces(s@), 0) == Some(x) && x.wf(),
                Err(e) => spec_parse_nth_from(trim_spaces(s@), 0) is None && e.cause
                    == ErrorCause::MalformedClause,
            },
    {
        let w = trimmed_chars(s);
        match parse_nth_search_chars(&w) {
            Some(x) => Ok(x),
            None => Err(ParseError::new(ErrorCause::MalformedClause)),
        }
    }
}

impl WeekSub {
    /// Parse a whole (trimmed) week "at" clause: weekday anchor first,
    /// hour anchor second.
    pub fn from_str(s: &str) -> (r: Result<WeekSub, ParseError>)
        ensures
            match r {
                Ok(x) => spec_parse_week_sub(trim_spaces(s@)) == Some(x) && x.wf(),
                Err(e) => spec_parse_week_sub(trim_spaces(s@)) is None && e.cause
                    == ErrorCause::MalformedClause,
            },
    {
        let w = trimmed_chars(s);
        match parse_week_sub_chars(&w) {
            Some(x) => Ok(x),
            None => Err(ParseError::new(ErrorCause::MalformedClause)),
        }
    }
}

pub fn parse_week_sub_chars(w: &Vec<char>) -> (r: Option<WeekSub>)
    ensures
        r == spec_parse_week_sub(w@),
        match r {
            Some(x) => x.wf(),
            None => true,
        },
{
    match parse_weekday_chars(w) {
        Some(a) => Some(WeekSub::AtWeekDay(a)),
        None => match parse_hour_chars(w) {
            Some(h) => Some(WeekSub::AtHour(h)),
            None => None,
        },
    }
}

impl MonthSub {
    /// Parse a whole (trimmed) month "at" clause: nth-weekday anchor
    /// first, hour anchor second, day anchor last.
    pub fn from_str(s: &str) -> (r: Result<MonthSub, ParseError>)
        ensures
            match r {
                Ok(x) => spec_parse_month_sub(trim_spaces(s@)) == Some(x) && x.wf(),
                Err(e) => spec_parse_month_sub(trim_spaces(s@)) is None && e.cause
                    == ErrorCause::MalformedClause,
            },
    {
        let w = trimmed_chars(s);
        match parse_month_sub_chars(&w) {
            Some(x) => Ok(x),
            None => Err(ParseError::new(ErrorCause::MalformedClause)),
        }
    }
}

pub fn parse_month_sub_chars(w: &Vec<char>) -> (r: Option<MonthSub>)
    ensures
        r == spec_parse_month_sub(w@),
        match r {
            Some(x) => x.wf(),
            None => true,
        },
{
    match parse_nth_search_chars(w) {
        Some(a) => Some(MonthSub::AtNthWeekDay(a)),
        None => match parse_hour_chars(w) {
            Some(h) => Some(MonthSub::AtHour(h)),
            None => match parse_day_chars(w) {
                Some(d) => Some(MonthSub::AtDay(d)),
                None => None,
            },
        },
    }
}

} // verus!
