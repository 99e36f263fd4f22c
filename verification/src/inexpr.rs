//! Relative "in" expressions: a compound offset folded into a single count
//! of its finest unit, an optional anchor for the resulting instant, and
//! their resolution against a reference instant.
use vstd::prelude::*;

use crate::anchors::{AtHour, AtMin, AtSec, MonthSub, WeekSub};
use crate::date::{
    add_days, add_months, add_seconds, days_before_year, month_shift, Instant,
};
use crate::errors::{ErrorCause, ParseError};
use crate::parse::{
    parse_min_chars, parse_month_sub_chars, parse_sec_chars, parse_week_sub_chars,
    parse_hour_chars, spec_parse_hour, spec_parse_min, spec_parse_month_sub, spec_parse_sec,
    spec_parse_week_sub,
};
use crate::text::{
    dec_text, digit_end, digit_end_x, digits_to_u32, digits_val, instant_text,
    lemma_digit_end_range, lemma_letter_end_range, lemma_skip_spaces_range, letter_end,
    letter_end_x, push_decimal, push_instant, range_eq, skip_spaces, skip_spaces_x, subvec,
    trim_spaces, trim_vec, trimmed_chars,
};
use crate::unit::{convertible, factor, rank, rank_x, unit_of_token, Unit};

verus! {

use vstd::string::*;

// ---------------------------------------------------------------------------
// Scanning count/unit pairs
// ---------------------------------------------------------------------------
/// Lex the offset clause from position `i` on: repeated `integer ws* unit`
/// groups separated by whitespace, ended by the end of the window or by a
/// standalone `at` (or `a`) keyword. Returns the pairs and the position
/// right after the keyword, if one was found.
pub open spec fn spec_scan_pairs(s: Seq<char>, i: int) -> Result<
    (Seq<(u32, Unit)>, Option<int>),
    ErrorCause,
>
    decreases s.len() - i,
    when 0 <= i <= s.len()
    via spec_scan_pairs_decreases
{
    let j = skip_spaces(s, i);
    if j == s.len() {
        Ok((Seq::empty(), None))
    } else if is_digit_at(s, j) {
        let e = digit_end(s, j);
        if digits_val(s.subrange(j, e)) > u32::MAX {
            Err(ErrorCause::MalformedClause)
        } else {
            let k = skip_spaces(s, e);
            let le = letter_end(s, k);
            if le == k {
                Err(ErrorCause::MalformedClause)
            } else {
                match unit_of_token(s.subrange(k, le)) {
                    Some(u) => match spec_scan_pairs(s, le) {
                        Ok(rest) => Ok(
                            (
                                seq![(digits_val(s.subrange(j, e)) as u32, u)] + rest.0,
                                rest.1,
                            ),
                        ),
                        Err(c) => Err(c),
                    },
                    None => Err(ErrorCause::UnrecognizedUnit),
                }
            }
        }
    } else {
        let le = letter_end(s, j);
        if le > j && (s.subrange(j, le) == "at"@ || s.subrange(j, le) == "a"@) {
            Ok((Seq::empty(), Some(le)))
        } else {
            Err(ErrorCause::MalformedClause)
        }
    }
}

pub open spec fn is_digit_at(s: Seq<char>, j: int) -> bool {
    0 <= j < s.len() && crate::text::is_digit(s[j])
}

#[via_fn]
proof fn spec_scan_pairs_decreases(s: Seq<char>, i: int) {
    lemma_skip_spaces_range(s, i);
    let j = skip_spaces(s, i);
    if j < s.len() && is_digit_at(s, j) {
        lemma_digit_end_range(s, j);
        let e = digit_end(s, j);
        lemma_skip_spaces_range(s, e);
        let k = skip_spaces(s, e);
        lemma_letter_end_range(s, k);
    }
}

/// Executable pair scanner, returning exactly what the rule above says.
pub fn scan_pairs_x(w: &Vec<char>, i: usize) -> (r: Result<
    (Vec<(u32, Unit)>, Option<usize>),
    ParseError,
>)
    requires
        i <= w@.len(),
    ensures
        match r {
            Ok(p) => spec_scan_pairs(w@, i as int) == Ok::<(Seq<(u32, Unit)>, Option<int>),
                ErrorCause,
            >(
                (
                    p.0@,
                    match p.1 {
                        Some(q) => Some(q as int),
                        None => None,
                    },
                ),
            ),
            Err(e) => spec_scan_pairs(w@, i as int) == Err::<(Seq<(u32, Unit)>, Option<int>),
                ErrorCause,
            >(e.cause),
        },
        match r {
            Ok(p) => match p.1 {
                Some(q) => q <= w@.len(),
                None => true,
            },
            Err(e) => true,
        },
    decreases w@.len() - i,
{
    let n = w.len();
    let j = skip_spaces_x(w, i);
    if j == n {
        let empty: Vec<(u32, Unit)> = Vec::new();
        proof {
            assert(empty@ =~= Seq::<(u32, Unit)>::empty());
        }
        return Ok((empty, None));
    }
    let c = w[j];
    if c >= '0' && c <= '9' {
        let e = digit_end_x(w, j);
        proof {
            lemma_digit_end_range(w@, j as int);
        }
        let v = match digits_to_u32(w, j, e) {
            Some(v) => v,
            None => {
                return Err(ParseError::new(ErrorCause::MalformedClause));
            },
        };
        let k = skip_spaces_x(w, e);
        let le = letter_end_x(w, k);
        if le == k {
            return Err(ParseError::new(ErrorCause::MalformedClause));
        }
        let u = match crate::unit::Unit::of_token_range(w, k, le) {
            Ok(u) => u,
            Err(_) => {
                return Err(ParseError::new(ErrorCause::UnrecognizedUnit));
            },
        };
        proof {
            lemma_skip_spaces_range(w@, i as int);
            lemma_skip_spaces_range(w@, e as int);
            lemma_letter_end_range(w@, k as int);
        }
        match scan_pairs_x(w, le) {
            Ok(rest) => {
                let mut ps: Vec<(u32, Unit)> = Vec::new();
                ps.push((v, u));
                let mut rest_vec = rest.0;
                let ghost rest_view = rest_vec@;
                let mut t: usize = 0;
                while t < rest_vec.len()
                    invariant
                        t <= rest_vec.len(),
                        rest_vec@ == rest_view,
                        ps@ == seq![((v, u))] + rest_view.subrange(0, t as int),
                    decreases rest_vec.len() - t,
                {
                    ps.push(rest_vec[t]);
                    proof {
                        assert(ps@ =~= seq![((v, u))] + rest_view.subrange(0, t + 1));
                    }
                    t = t + 1;
                }
                proof {
                    assert(ps@ =~= seq![((v, u))] + rest_view);
                }
                Ok((ps, rest.1))
            },
            Err(e) => Err(e),
        }
    } else {
        let le = letter_end_x(w, j);
        if le > j && (range_eq(w, j, le, "at") || range_eq(w, j, le, "a")) {
            let empty: Vec<(u32, Unit)> = Vec::new();
            proof {
                assert(empty@ =~= Seq::<(u32, Unit)>::empty());
            }
            Ok((empty, Some(le)))
        } else {
            Err(ParseError::new(ErrorCause::MalformedClause))
        }
    }
}

// ---------------------------------------------------------------------------
// Folding the pairs
// ---------------------------------------------------------------------------
/// Fold the scanned pairs left to right into one count of the finest unit
/// seen. A coarser-or-equal new unit is converted down and added; a finer
/// new unit forces the running total to convert down to it first. Units
/// with no lattice path between them, a fold exceeding the `u32` range,
/// and an empty clause are the three failure causes.
pub open spec fn spec_fold(ps: Seq<(u32, Unit)>) -> Result<(int, Unit), ErrorCause>
    decreases ps.len(),
{
    if ps.len() == 0 {
        Err(ErrorCause::NoTimeSpecified)
    } else if ps.len() == 1 {
        Ok((ps[0].0 as int, ps[0].1))
    } else {
        match spec_fold(ps.drop_last()) {
            Err(c) => Err(c),
            Ok(acc) => {
                let t = acc.0;
                let f = acc.1;
                let v = ps.last().0 as int;
                let u = ps.last().1;
                if rank(u) >= rank(f) {
                    if !convertible(u, f) {
                        Err(ErrorCause::IncompatibleUnits)
                    } else if t + v * factor(u, f) > u32::MAX {
                        Err(ErrorCause::OutOfRange)
                    } else {
                        Ok((t + v * factor(u, f), f))
                    }
                } else {
                    if !convertible(f, u) {
                        Err(ErrorCause::IncompatibleUnits)
                    } else if t * factor(f, u) + v > u32::MAX {
                        Err(ErrorCause::OutOfRange)
                    } else {
                        Ok((t * factor(f, u) + v, u))
                    }
                }
            },
        }
    }
}

/// A fold that has failed on a prefix fails the whole sequence the same way.
proof fn lemma_fold_err_propagates(ps: Seq<(u32, Unit)>, k: int)
    requires
        1 <= k <= ps.len(),
        spec_fold(ps.subrange(0, k)) is Err,
    ensures
        spec_fold(ps) == spec_fold(ps.subrange(0, k)),
    decreases ps.len() - k,
{
    if k == ps.len() {
        assert(ps.subrange(0, k) =~= ps);
    } else {
        assert(ps.subrange(0, k + 1).drop_last() =~= ps.subrange(0, k));
        lemma_fold_err_propagates(ps, k + 1);
    }
}

/// Executable fold, returning exactly what `spec_fold` says.
pub fn fold_pairs(ps: &Vec<(u32, Unit)>) -> (r: Result<(u32, Unit), ParseError>)
    ensures
        match r {
            Ok(p) => spec_fold(ps@) == Ok::<(int, Unit), ErrorCause>((p.0 as int, p.1)),
            Err(e) => spec_fold(ps@) == Err::<(int, Unit), ErrorCause>(e.cause),
        },
{
    let n = ps.len();
    if n == 0 {
        return Err(ParseError::new(ErrorCause::NoTimeSpecified));
    }
    let first = ps[0];
    let mut t: u32 = first.0;
    let mut f: Unit = first.1;
    let mut i: usize = 1;
    proof {
        assert(ps@.subrange(0, 1) =~= seq![ps@[0]]);
    }
    while i < n
        invariant
            1 <= i <= n,
            n == ps@.len(),
            spec_fold(ps@.subrange(0, i as int)) == Ok::<(int, Unit), ErrorCause>((t as int, f)),
        decreases n - i,
    {
        let pair = ps[i];
        let v = pair.0;
        let u = pair.1;
        let ghost prefix = ps@.subrange(0, i + 1);
        proof {
            assert(prefix.drop_last() =~= ps@.subrange(0, i as int));
            assert(prefix.last() == ps@[i as int]);
        }
        if rank_x(&u) >= rank_x(&f) {
            proof {
                if convertible(u, f) {
                    crate::unit::lemma_factor_cap(u, f);
                }
            }
            let fac = match u.to_lower_or_equal(&f, 1) {
                Some(x) => x,
                None => {
                    proof {
                        lemma_fold_err_propagates(ps@, i + 1);
                    }
                    return Err(ParseError::new(ErrorCause::IncompatibleUnits));
                },
            };
            proof {
                assert(fac <= 604800);
                assert(v as int * fac as int <= 0xffff_ffff * 604800) by (nonlinear_arith)
                    requires
                        0 <= fac <= 604800,
                        0 <= v <= 0xffff_ffff,
                ;
            }
            let wide: u64 = t as u64 + v as u64 * fac as u64;
            if wide > u32::MAX as u64 {
                proof {
                    lemma_fold_err_propagates(ps@, i + 1);
                }
                return Err(ParseError::new(ErrorCause::OutOfRange));
            }
            t = wide as u32;
        } else {
            proof {
                if convertible(f, u) {
                    crate::unit::lemma_factor_cap(f, u);
                }
            }
            let fac = match f.to_lower_or_equal(&u, 1) {
                Some(x) => x,
                None => {
                    proof {
                        lemma_fold_err_propagates(ps@, i + 1);
                    }
                    return Err(ParseError::new(ErrorCause::IncompatibleUnits));
                },
            };
            proof {
                assert(fac <= 604800);
                assert(t as int * fac as int <= 0xffff_ffff * 604800) by (nonlinear_arith)
                    requires
                        0 <= fac <= 604800,
                        0 <= t <= 0xffff_ffff,
                ;
            }
            let wide: u64 = t as u64 * fac as u64 + v as u64;
            if wide > u32::MAX as u64 {
                proof {
                    lemma_fold_err_propagates(ps@, i + 1);
                }
                return Err(ParseError::new(ErrorCause::OutOfRange));
            }
            t = wide as u32;
            f = u;
        }
        i = i + 1;
    }
    proof {
        assert(ps@.subrange(0, n as int) =~= ps@);
    }
    Ok((t, f))
}


// ---------------------------------------------------------------------------
// Rendering
// ---------------------------------------------------------------------------
/// The directive line an instant renders to.
pub open spec fn on_calendar_text(j: Instant) -> Seq<char> {
    "OnCalendar="@ + instant_text(j)
}

pub fn render_on_calendar(j: &Instant) -> (r: String)
    requires
        j.wf(),
    ensures
        r@ == on_calendar_text(*j),
{
    let mut s = String::new();
    s.append("OnCalendar=");
    push_instant(&mut s, j);
    proof {
        assert(s@ =~= on_calendar_text(*j));
    }
    s
}

// ---------------------------------------------------------------------------
// The relative expressions
// ---------------------------------------------------------------------------
/// A seconds-level offset. Seconds have no finer anchor.
pub struct InSec(pub i64);

/// A minutes-level offset with an optional second anchor.
pub struct InMin(pub i64, pub Option<AtSec>);

/// An hours-level offset with an optional minute anchor.
pub struct InHour(pub i64, pub Option<AtMin>);

/// A days-level offset with an optional hour anchor.
pub struct InDay(pub i64, pub Option<AtHour>);

/// A weeks-level offset with an optional week "at" clause.
pub struct InWeek(pub i64, pub Option<WeekSub>);

/// A months-level offset with an optional month "at" clause.
pub struct InMonth(pub u32, pub Option<MonthSub>);

/// A fully parsed relative schedule expression.
pub enum In {
    Sec(InSec),
    Min(InMin),
    Hour(InHour),
    Day(InDay),
    Week(InWeek),
    Month(InMonth),
}

impl InSec {
    pub open spec fn wf(self) -> bool {
        0 <= self.0 <= 0xffff_ffff
    }

    /// `j` is `now` moved forward by this many seconds.
    pub open spec fn resolves(self, now: Instant, j: Instant) -> bool {
        j.total_seconds() == now.total_seconds() + self.0
    }

    /// The cause under which resolution against `now` fails.
    pub open spec fn fails(self, now: Instant, c: ErrorCause) -> bool {
        now.total_seconds() + self.0 >= 86400 * days_before_year(10000) && c
            == ErrorCause::OutOfRange
    }

    pub fn resolve(&self, now: &Instant) -> (r: Result<Instant, ParseError>)
        requires
            now.wf(),
            self.wf(),
        ensures
            match r {
                Ok(j) => j.wf() && self.resolves(*now, j),
                Err(e) => self.fails(*now, e.cause),
            },
    {
        match add_seconds(now, self.0 as u64) {
            Some(j) => Ok(j),
            None => Err(ParseError::new(ErrorCause::OutOfRange)),
        }
    }

    pub fn timer(&self, now: &Instant) -> (r: Result<String, ParseError>)
        requires
            now.wf(),
            self.wf(),
        ensures
            match r {
                Ok(s) => exists|j: Instant|
                    j.wf() && #[trigger] self.resolves(*now, j) && s@ == on_calendar_text(j),
                Err(e) => self.fails(*now, e.cause),
            },
    {
        match self.resolve(now) {
            Ok(j) => {
                let line = render_on_calendar(&j);
                proof {
                    assert(self.resolves(*now, j));
                }
                Ok(line)
            },
            Err(e) => Err(e),
        }
    }
}

impl InMin {
    pub open spec fn wf(self) -> bool {
        &&& 0 <= self.0 <= 0xffff_ffff
        &&& match self.1 {
            Some(a) => a.wf(),
            None => true,
        }
    }

    /// `j` is `now` moved forward by this many minutes, with the optional
    /// second anchor applied to the result.
    pub open spec fn resolves(self, now: Instant, j: Instant) -> bool {
        exists|b: Instant|
            b.wf() && (#[trigger] b.total_seconds()) == now.total_seconds() + 60 * self.0 && (
            match self.1 {
                None => j == b,
                Some(a) => a.ok_at(b, j),
            })
    }

    /// The cause under which resolution against `now` fails.
    pub open spec fn fails(self, now: Instant, c: ErrorCause) -> bool {
        now.total_seconds() + 60 * self.0 >= 86400 * days_before_year(10000) && c
            == ErrorCause::OutOfRange
    }

    pub fn resolve(&self, now: &Instant) -> (r: Result<Instant, ParseError>)
        requires
            now.wf(),
            self.wf(),
        ensures
            match r {
                Ok(j) => j.wf() && self.resolves(*now, j),
                Err(e) => self.fails(*now, e.cause),
            },
    {
        match add_seconds(now, 60 * (self.0 as u64)) {
            Some(base) => {
                let j = match &self.1 {
                    Some(a) => a.at(&base),
                    None => base,
                };
                proof {
                    assert(base.total_seconds() == now.total_seconds() + 60 * self.0);
                    assert(self.resolves(*now, j));
                }
                Ok(j)
            },
            None => Err(ParseError::new(ErrorCause::OutOfRange)),
        }
    }

    pub fn timer(&self, now: &Instant) -> (r: Result<String, ParseError>)
        requires
            now.wf(),
            self.wf(),
        ensures
            match r {
                Ok(s) => exists|j: Instant|
                    j.wf() && #[trigger] self.resolves(*now, j) && s@ == on_calendar_text(j),
                Err(e) => self.fails(*now, e.cause),
            },
    {
        match self.resolve(now) {
            Ok(j) => {
                let line = render_on_calendar(&j);
                proof {
                    assert(self.resolves(*now, j));
                }
                Ok(line)
            },
            Err(e) => Err(e),
        }
    }
}

impl InHour {
    pub open spec fn wf(self) -> bool {
        &&& 0 <= self.0 <= 0xffff_ffff
        &&& match self.1 {
            Some(a) => a.wf(),
            None => true,
        }
    }

    /// `j` is `now` moved forward by this many hours, with the optional
    /// minute anchor applied to the result.
    pub open spec fn resolves(self, now: Instant, j: Instant) -> bool {
        exists|b: Instant|
            b.wf() && (#[trigger] b.total_seconds()) == now.total_seconds() + 3600 * self.0 && (
            match self.1 {
                None => j == b,
                Some(a) => a.ok_at(b, j),
            })
    }

    /// The cause under which resolution against `now` fails.
    pub open spec fn fails(self, now: Instant, c: ErrorCause) -> bool {
        now.total_seconds() + 3600 * self.0 >= 86400 * days_before_year(10000) && c
            == ErrorCause::OutOfRange
    }

    pub fn resolve(&self, now: &Instant) -> (r: Result<Instant, ParseError>)
        requires
            now.wf(),
            self.wf(),
        ensures
            match r {
                Ok(j) => j.wf() && self.resolves(*now, j),
                Err(e) => self.fails(*now, e.cause),
            },
    {
        match add_seconds(now, 3600 * (self.0 as u64)) {
            Some(base) => {
                let j = match &self.1 {
                    Some(a) => a.at(&base),
                    None => base,
                };
                proof {
                    assert(base.total_seconds() == now.total_seconds() + 3600 * self.0);
                    assert(self.resolves(*now, j));
                }
                Ok(j)
            },
            None => Err(ParseError::new(ErrorCause::OutOfRange)),
        }
    }

    pub fn timer(&self, now: &Instant) -> (r: Result<String, ParseError>)
        requires
            now.wf(),
            self.wf(),
        ensures
            match r {
                Ok(s) => exists|j: Instant|
                    j.wf() && #[trigger] self.resolves(*now, j) && s@ == on_calendar_text(j),
                Err(e) => self.fails(*now, e.cause),
            },
    {
        match self.resolve(now) {
            Ok(j) => {
                let line = render_on_calendar(&j);
                proof {
                    assert(self.resolves(*now, j));
                }
                Ok(line)
            },
            Err(e) => Err(e),
        }
    }
}

impl InDay {
    pub open spec fn wf(self) -> bool {
        &&& 0 <= self.0 <= 0xffff_ffff
        &&& match self.1 {
            Some(a) => a.wf(),
            None => true,
        }
    }

    /// `j` is `now` moved forward by this many calendar days, with the
    /// optional hour anchor applied to the result.
    pub open spec fn resolves(self, now: Instant, j: Instant) -> bool {
        exists|b: Instant|
            b.wf() && (#[trigger] b.epoch_day()) == now.epoch_day() + self.0 && b.same_time(now)
                && (match self.1 {
                None => j == b,
                Some(a) => a.ok_at(b, j),
            })
    }

    /// The cause under which resolution against `now` fails.
    pub open spec fn fails(self, now: Instant, c: ErrorCause) -> bool {
        !(0 <= now.epoch_day() + self.0 < days_before_year(10000)) && c == ErrorCause::OutOfRange
    }

    pub fn resolve(&self, now: &Instant) -> (r: Result<Instant, ParseError>)
        requires
            now.wf(),
            self.wf(),
        ensures
            match r {
                Ok(j) => j.wf() && self.resolves(*now, j),
                Err(e) => self.fails(*now, e.cause),
            },
    {
        match add_days(now, self.0) {
            Some(base) => {
                let j = match &self.1 {
                    Some(a) => a.at(&base),
                    None => base,
                };
                proof {
                    assert(base.epoch_day() == now.epoch_day() + self.0);
                    assert(self.resolves(*now, j));
                }
                Ok(j)
            },
            None => Err(ParseError::new(ErrorCause::OutOfRange)),
        }
    }

    pub fn timer(&self, now: &Instant) -> (r: Result<String, ParseError>)
        requires
            now.wf(),
            self.wf(),
        ensures
            match r {
                Ok(s) => exists|j: Instant|
                    j.wf() && #[trigger] self.resolves(*now, j) && s@ == on_calendar_text(j),
                Err(e) => self.fails(*now, e.cause),
            },
    {
        match self.resolve(now) {
            Ok(j) => {
                let line = render_on_calendar(&j);
                proof {
                    assert(self.resolves(*now, j));
                }
                Ok(line)
            },
            Err(e) => Err(e),
        }
    }
}

impl InWeek {
    pub open spec fn wf(self) -> bool {
        &&& 0 <= self.0 <= 0xffff_ffff
        &&& match self.1 {
            Some(a) => a.wf(),
            None => true,
        }
    }

    /// `j` is `now` moved forward by this many weeks, with the optional
    /// week "at" clause applied to the result.
    pub open spec fn resolves(self, now: Instant, j: Instant) -> bool {
        exists|b: Instant|
            b.wf() && (#[trigger] b.epoch_day()) == now.epoch_day() + 7 * self.0 && b.same_time(
                now,
            ) && (match self.1 {
                None => j == b,
                Some(ws) => ws.ok_at(b, j),
            })
    }

    /// The cause under which resolution against `now` fails: the week
    /// offset leaves the calendar, or the clause itself fails on the
    /// shifted instant.
    pub open spec fn fails(self, now: Instant, c: ErrorCause) -> bool {
        ||| (!(0 <= now.epoch_day() + 7 * self.0 < days_before_year(10000)) && c
            == ErrorCause::OutOfRange)
        ||| exists|b: Instant|
            b.wf() && (#[trigger] b.epoch_day()) == now.epoch_day() + 7 * self.0 && b.same_time(
                now,
            ) && (match self.1 {
                None => false,
                Some(ws) => ws.err_at(b, c),
            })
    }

    pub fn resolve(&self, now: &Instant) -> (r: Result<Instant, ParseError>)
        requires
            now.wf(),
            self.wf(),
        ensures
            match r {
                Ok(j) => j.wf() && self.resolves(*now, j),
                Err(e) => self.fails(*now, e.cause),
            },
    {
        match add_days(now, 7 * self.0) {
            Some(base) => {
                match &self.1 {
                    Some(ws) => match ws.at(&base) {
                        Ok(j) => {
                            proof {
                                assert(base.epoch_day() == now.epoch_day() + 7 * self.0);
                                assert(self.resolves(*now, j));
                            }
                            Ok(j)
                        },
                        Err(e) => {
                            proof {
                                assert(base.epoch_day() == now.epoch_day() + 7 * self.0);
                                assert(self.fails(*now, e.cause));
                            }
                            Err(e)
                        },
                    },
                    None => {
                        proof {
                            assert(base.epoch_day() == now.epoch_day() + 7 * self.0);
                            assert(self.resolves(*now, base));
                        }
                        Ok(base)
                    },
                }
            },
            None => Err(ParseError::new(ErrorCause::OutOfRange)),
        }
    }

    pub fn timer(&self, now: &Instant) -> (r: Result<String, ParseError>)
        requires
            now.wf(),
            self.wf(),
        ensures
            match r {
                Ok(s) => exists|j: Instant|
                    j.wf() && #[trigger] self.resolves(*now, j) && s@ == on_calendar_text(j),
                Err(e) => self.fails(*now, e.cause),
            },
    {
        match self.resolve(now) {
            Ok(j) => {
                let line = render_on_calendar(&j);
                proof {
                    assert(self.resolves(*now, j));
                }
                Ok(line)
            },
            Err(e) => Err(e),
        }
    }
}

impl InMonth {
    pub open spec fn wf(self) -> bool {
        match self.1 {
            Some(a) => a.wf(),
            None => true,
        }
    }

    /// `j` is `now` moved forward by this many calendar months with
    /// end-of-month clamping, and the optional month "at" clause applied
    /// to the result.
    pub open spec fn resolves(self, now: Instant, j: Instant) -> bool {
        exists|b: Instant|
            b.wf() && #[trigger] month_shift(now, self.0 as int, b) && (match self.1 {
                None => j == b,
                Some(ms) => ms.ok_at(b, j),
            })
    }

    /// The cause under which resolution against `now` fails: the month
    /// offset leaves the supported years, or the clause itself fails on
    /// the shifted instant.
    pub open spec fn fails(self, now: Instant, c: ErrorCause) -> bool {
        ||| (now.year + (now.month - 1 + self.0) / 12 > 9999 && c == ErrorCause::OutOfRange)
        ||| exists|b: Instant|
            b.wf() && #[trigger] month_shift(now, self.0 as int, b) && (match self.1 {
                None => false,
                Some(ms) => ms.err_at(b, c),
            })
    }

    pub fn resolve(&self, now: &Instant) -> (r: Result<Instant, ParseError>)
        requires
            now.wf(),
            self.wf(),
        ensures
            match r {
                Ok(j) => j.wf() && self.resolves(*now, j),
                Err(e) => self.fails(*now, e.cause),
            },
    {
        match add_months(now, self.0) {
            Some(base) => {
                match &self.1 {
                    Some(ms) => match ms.at(&base) {
                        Ok(j) => {
                            proof {
                                assert(month_shift(*now, self.0 as int, base));
                                assert(self.resolves(*now, j));
                            }
                            Ok(j)
                        },
                        Err(e) => {
                            proof {
                                assert(month_shift(*now, self.0 as int, base));
                                assert(self.fails(*now, e.cause));
                            }
                            Err(e)
                        },
                    },
                    None => {
                        proof {
                            assert(month_shift(*now, self.0 as int, base));
                            assert(self.resolves(*now, base));
                        }
                        Ok(base)
                    },
                }
            },
            None => Err(ParseError::new(ErrorCause::OutOfRange)),
        }
    }

    pub fn timer(&self, now: &Instant) -> (r: Result<String, ParseError>)
        requires
            now.wf(),
            self.wf(),
        ensures
            match r {
                Ok(s) => exists|j: Instant|
                    j.wf() && #[trigger] self.resolves(*now, j) && s@ == on_calendar_text(j),
                Err(e) => self.fails(*now, e.cause),
            },
    {
        match self.resolve(now) {
            Ok(j) => {
                let line = render_on_calendar(&j);
                proof {
                    assert(self.resolves(*now, j));
                }
                Ok(line)
            },
            Err(e) => Err(e),
        }
    }
}

impl In {
    pub open spec fn wf(self) -> bool {
        match self {
            In::Sec(x) => x.wf(),
            In::Min(x) => x.wf(),
            In::Hour(x) => x.wf(),
            In::Day(x) => x.wf(),
            In::Week(x) => x.wf(),
            In::Month(x) => x.wf(),
        }
    }

    /// `j` is the expression resolved against `now`.
    pub open spec fn resolves(self, now: Instant, j: Instant) -> bool {
        match self {
            In::Sec(x) => x.resolves(now, j),
            In::Min(x) => x.resolves(now, j),
            In::Hour(x) => x.resolves(now, j),
            In::Day(x) => x.resolves(now, j),
            In::Week(x) => x.resolves(now, j),
            In::Month(x) => x.resolves(now, j),
        }
    }

    /// The cause under which resolution against `now` fails.
    pub open spec fn fails(self, now: Instant, c: ErrorCause) -> bool {
        match self {
            In::Sec(x) => x.fails(now, c),
            In::Min(x) => x.fails(now, c),
            In::Hour(x) => x.fails(now, c),
            In::Day(x) => x.fails(now, c),
            In::Week(x) => x.fails(now, c),
            In::Month(x) => x.fails(now, c),
        }
    }

    pub fn resolve(&self, now: &Instant) -> (r: Result<Instant, ParseError>)
        requires
            now.wf(),
            self.wf(),
        ensures
            match r {
                Ok(j) => j.wf() && self.resolves(*now, j),
                Err(e) => self.fails(*now, e.cause),
            },
    {
        match self {
            In::Sec(x) => x.resolve(now),
            In::Min(x) => x.resolve(now),
            In::Hour(x) => x.resolve(now),
            In::Day(x) => x.resolve(now),
            In::Week(x) => x.resolve(now),
            In::Month(x) => x.resolve(now),
        }
    }

    /// Render the expression as one `OnCalendar=` directive line against
    /// the reference instant.
    pub fn timer(&self, now: &Instant) -> (r: Result<String, ParseError>)
        requires
            now.wf(),
            self.wf(),
        ensures
            match r {
                Ok(s) => exists|j: Instant|
                    j.wf() && #[trigger] self.resolves(*now, j) && s@ == on_calendar_text(j),
                Err(e) => self.fails(*now, e.cause),
            },
    {
        match self.resolve(now) {
            Ok(j) => {
                let line = render_on_calendar(&j);
                proof {
                    assert(self.resolves(*now, j));
                }
                Ok(line)
            },
            Err(e) => Err(e),
        }
    }
}


// ---------------------------------------------------------------------------
// Parsing a whole "in" expression
// ---------------------------------------------------------------------------
/// Grammar and meaning of one segment: the keyword `in` (or `i`), the
/// offset pairs folded to a single count of their finest unit, and an
/// optional "at" clause parsed by the anchor grammar matching that unit.
/// A seconds-level result rejects any "at" clause; a fold that ends on
/// years has no expression form.
pub open spec fn spec_parse_in(s: Seq<char>) -> Result<In, ErrorCause> {
    let t = trim_spaces(s);
    let le0 = letter_end(t, 0);
    if !(le0 > 0 && (t.subrange(0, le0) == "in"@ || t.subrange(0, le0) == "i"@)) {
        Err(ErrorCause::MalformedClause)
    } else {
        match spec_scan_pairs(t, le0) {
            Err(c) => Err(c),
            Ok(scan) => match spec_fold(scan.0) {
                Err(c) => Err(c),
                Ok(tf) => {
                    let total = tf.0;
                    let at: Option<Seq<char>> = match scan.1 {
                        None => None,
                        Some(p) => Some(trim_spaces(t.subrange(p, t.len() as int))),
                    };
                    match tf.1 {
                        Unit::Sec => match at {
                            None => Ok(In::Sec(InSec(total as i64))),
                            Some(_) => Err(ErrorCause::MalformedClause),
                        },
                        Unit::Min => match at {
                            None => Ok(In::Min(InMin(total as i64, None))),
                            Some(c) => match spec_parse_sec(c) {
                                Some(a) => Ok(In::Min(InMin(total as i64, Some(a)))),
                                None => Err(ErrorCause::MalformedClause),
                            },
                        },
                        Unit::Hour => match at {
                            None => Ok(In::Hour(InHour(total as i64, None))),
                            Some(c) => match spec_parse_min(c) {
                                Some(a) => Ok(In::Hour(InHour(total as i64, Some(a)))),
                                None => Err(ErrorCause::MalformedClause),
                            },
                        },
                        Unit::Day => match at {
                            None => Ok(In::Day(InDay(total as i64, None))),
                            Some(c) => match spec_parse_hour(c) {
                                Some(a) => Ok(In::Day(InDay(total as i64, Some(a)))),
                                None => Err(ErrorCause::MalformedClause),
                            },
                        },
                        Unit::Week => match at {
                            None => Ok(In::Week(InWeek(total as i64, None))),
                            Some(c) => match spec_parse_week_sub(c) {
                                Some(a) => Ok(In::Week(InWeek(total as i64, Some(a)))),
                                None => Err(ErrorCause::MalformedClause),
                            },
                        },
                        Unit::Month => match at {
                            None => Ok(In::Month(InMonth(total as u32, None))),
                            Some(c) => match spec_parse_month_sub(c) {
                                Some(a) => Ok(In::Month(InMonth(total as u32, Some(a)))),
                                None => Err(ErrorCause::MalformedClause),
                            },
                        },
                        Unit::Year => Err(ErrorCause::Unsupported),
                    }
                },
            },
        }
    }
}

impl In {
    /// Parse one relative schedule expression, exactly as the grammar
    /// above says.
    pub fn from_str(s: &str) -> (r: Result<In, ParseError>)
        ensures
            match r {
                Ok(x) => spec_parse_in(s@) == Ok::<In, ErrorCause>(x) && x.wf(),
                Err(e) => spec_parse_in(s@) == Err::<In, ErrorCause>(e.cause),
            },
    {
        let w = trimmed_chars(s);
        let n = w.len();
        let le0 = letter_end_x(&w, 0);
        if !(le0 > 0 && (range_eq(&w, 0, le0, "in") || range_eq(&w, 0, le0, "i"))) {
            return Err(ParseError::new(ErrorCause::MalformedClause));
        }
        let scanned = match scan_pairs_x(&w, le0) {
            Ok(p) => p,
            Err(e) => {
                return Err(e);
            },
        };
        let folded = match fold_pairs(&scanned.0) {
            Ok(p) => p,
            Err(e) => {
                return Err(e);
            },
        };
        let total = folded.0;
        let at_w: Option<Vec<char>> = match scanned.1 {
            Some(p) => {
                let raw = subvec(&w, p, n);
                Some(trim_vec(&raw))
            },
            None => None,
        };
        match folded.1 {
            Unit::Sec => match at_w {
                None => Ok(In::Sec(InSec(total as i64))),
                Some(_) => Err(ParseError::new(ErrorCause::MalformedClause)),
            },
            Unit::Min => match at_w {
                None => Ok(In::Min(InMin(total as i64, None))),
                Some(c) => match parse_sec_chars(&c) {
                    Some(a) => Ok(In::Min(InMin(total as i64, Some(a)))),
                    None => Err(ParseError::new(ErrorCause::MalformedClause)),
                },
            },
            Unit::Hour => match at_w {
                None => Ok(In::Hour(InHour(total as i64, None))),
                Some(c) => match parse_min_chars(&c) {
                    Some(a) => Ok(In::Hour(InHour(total as i64, Some(a)))),
                    None => Err(ParseError::new(ErrorCause::MalformedClause)),
                },
            },
            Unit::Day => match at_w {
                None => Ok(In::Day(InDay(total as i64, None))),
                Some(c) => match parse_hour_chars(&c) {
                    Some(a) => Ok(In::Day(InDay(total as i64, Some(a)))),
                    None => Err(ParseError::new(ErrorCause::MalformedClause)),
                },
            },
            Unit::Week => match at_w {
                None => Ok(In::Week(InWeek(total as i64, None))),
                Some(c) => match parse_week_sub_chars(&c) {
                    Some(a) => Ok(In::Week(InWeek(total as i64, Some(a)))),
                    None => Err(ParseError::new(ErrorCause::MalformedClause)),
                },
            },
            Unit::Month => match at_w {
                None => Ok(In::Month(InMonth(total, None))),
                Some(c) => match parse_month_sub_chars(&c) {
                    Some(a) => Ok(In::Month(InMonth(total, Some(a)))),
                    None => Err(ParseError::new(ErrorCause::MalformedClause)),
                },
            },
            Unit::Year => Err(ParseError::new(ErrorCause::Unsupported)),
        }
    }
}


/// The optional " at ..." tail of an expression's text.
pub open spec fn at_tail(t: Option<Seq<char>>) -> Seq<char> {
    match t {
        None => Seq::empty(),
        Some(a) => " at "@ + a,
    }
}

impl In {
    /// The canonical text of the expression: the offset in its finest
    /// unit, and the "at" clause if one is present.
    pub open spec fn text(self) -> Seq<char> {
        match self {
            In::Sec(x) => "in "@ + dec_text(x.0 as int) + "s"@,
            In::Min(x) => "in "@ + dec_text(x.0 as int) + "m"@ + at_tail(
                match x.1 {
                    None => None,
                    Some(a) => Some(a.text()),
                },
            ),
            In::Hour(x) => "in "@ + dec_text(x.0 as int) + "h"@ + at_tail(
                match x.1 {
                    None => None,
                    Some(a) => Some(a.text()),
                },
            ),
            In::Day(x) => "in "@ + dec_text(x.0 as int) + "d"@ + at_tail(
                match x.1 {
                    None => None,
                    Some(a) => Some(a.text()),
                },
            ),
            In::Week(x) => "in "@ + dec_text(x.0 as int) + "w"@ + at_tail(
                match x.1 {
                    None => None,
                    Some(a) => Some(a.text()),
                },
            ),
            In::Month(x) => "in "@ + dec_text(x.0 as int) + "M"@ + at_tail(
                match x.1 {
                    None => None,
                    Some(a) => Some(a.text()),
                },
            ),
        }
    }

    /// Render the expression back to text.
    pub fn to_text(&self) -> (r: String)
        requires
            self.wf(),
        ensures
            r@ == self.text(),
    {
        let mut s = String::new();
        s.append("in ");
        match self {
            In::Sec(x) => {
                push_decimal(&mut s, x.0 as u64);
                s.append("s");
            },
            In::Min(x) => {
                push_decimal(&mut s, x.0 as u64);
                s.append("m");
                match &x.1 {
                    None => {},
                    Some(a) => {
                        s.append(" at ");
                        let sub = a.to_text();
                        s.append(sub.as_str());
                    },
                }
            },
            In::Hour(x) => {
                push_decimal(&mut s, x.0 as u64);
                s.append("h");
                match &x.1 {
                    None => {},
                    Some(a) => {
                        s.append(" at ");
                        let sub = a.to_text();
                        s.append(sub.as_str());
                    },
                }
            },
            In::Day(x) => {
                push_decimal(&mut s, x.0 as u64);
                s.append("d");
                match &x.1 {
                    None => {},
                    Some(a) => {
                        s.append(" at ");
                        let sub = a.to_text();
                        s.append(sub.as_str());
                    },
                }
            },
            In::Week(x) => {
                push_decimal(&mut s, x.0 as u64);
                s.append("w");
                match &x.1 {
                    None => {},
                    Some(a) => {
                        s.append(" at ");
                        let sub = a.to_text();
                        s.append(sub.as_str());
                    },
                }
            },
            In::Month(x) => {
                push_decimal(&mut s, x.0 as u64);
                s.append("M");
                match &x.1 {
                    None => {},
                    Some(a) => {
                        s.append(" at ");
                        let sub = a.to_text();
                        s.append(sub.as_str());
                    },
                }
            },
        }
        proof {
            assert(s@ =~= self.text());
        }
        s
    }
}

} // verus!
