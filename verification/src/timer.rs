//! The timer tree: a list of sibling timers, a calendar restriction
//! (an extension point the grammar does not yet produce), an absolute
//! duration bound to a scheduler directive, or a relative "in"
//! expression. Rendering walks the tree against a reference instant and
//! emits one directive line per leaf.
use vstd::prelude::*;

use crate::date::{add_seconds, days_before_year, lemma_days_before_year_bounds, Instant};
use crate::errors::{ErrorCause, ParseError};
use crate::inexpr::{
    on_calendar_text, render_on_calendar, spec_parse_in, In, InDay, InHour, InMin, InMonth, InSec,
    InWeek,
};
use crate::text::{
    dec_text, lemma_semi_end_range, push_decimal, semi_end, semi_end_x, to_char_vec,
};

verus! {

use vstd::string::*;

/// One field restriction of a calendar expression: a closed integer range.
#[derive(Clone, Copy, PartialEq, Eq, Structural, Debug)]
pub struct IntRange(pub i32, pub i32);

/// A field of a calendar expression: restricted to a range, or free.
#[derive(Clone, Copy, PartialEq, Eq, Structural, Debug)]
pub enum IntRestriction {
    Restrictions(IntRange),
    NoRestriction,
}

/// A systemd-style calendar restriction over weekday, date and time
/// fields. The grammar does not yet produce it; it is kept as an explicit
/// extension point, and rendering it reports `Unsupported`.
#[derive(Clone, Copy, PartialEq, Eq, Structural, Debug)]
#[allow(non_snake_case)]
pub struct Calendar {
    pub wd: IntRestriction,
    pub d: IntRestriction,
    pub M: IntRestriction,
    pub y: IntRestriction,
    pub s: IntRestriction,
    pub m: IntRestriction,
    pub h: IntRestriction,
}

/// Which scheduler directive an absolute duration maps to.
#[derive(Clone, Copy, PartialEq, Eq, Structural, Debug)]
pub enum DurationKind {
    SinceTimer,
    SinceBoot,
    SinceLogin,
    SinceSrvAct,
    SinceSrvEnd,
    IN,
}

/// The directive key of a duration kind.
pub open spec fn key_text(k: DurationKind) -> Seq<char> {
    match k {
        DurationKind::SinceTimer => "OnActiveSec="@,
        DurationKind::SinceBoot => "OnBootSec="@,
        DurationKind::SinceLogin => "OnStartupSec="@,
        DurationKind::SinceSrvAct => "OnUnitActiveSec="@,
        DurationKind::SinceSrvEnd => "OnUnitInactiveSec="@,
        DurationKind::IN => "OnCalendar="@,
    }
}

fn key_str(k: &DurationKind) -> (r: &'static str)
    ensures
        r@ == key_text(*k),
{
    match k {
        DurationKind::SinceTimer => "OnActiveSec=",
        DurationKind::SinceBoot => "OnBootSec=",
        DurationKind::SinceLogin => "OnStartupSec=",
        DurationKind::SinceSrvAct => "OnUnitActiveSec=",
        DurationKind::SinceSrvEnd => "OnUnitInactiveSec=",
        DurationKind::IN => "OnCalendar=",
    }
}

/// An absolute elapsed-time magnitude: up to nine independently optional
/// integer field counts, microseconds through years.
#[derive(Clone, Copy, PartialEq, Eq, Structural, Debug)]
pub struct InDuration {
    pub micros: Option<u64>,
    pub millis: Option<u64>,
    pub secs: Option<u64>,
    pub mins: Option<u64>,
    pub hours: Option<u64>,
    pub days: Option<u64>,
    pub weeks: Option<u64>,
    pub months: Option<u64>,
    pub years: Option<u64>,
}

pub open spec fn ov(o: Option<u64>) -> int {
    match o {
        Some(x) => x as int,
        None => 0,
    }
}

fn ov_x(o: &Option<u64>) -> (r: u64)
    ensures
        r == ov(*o),
{
    match o {
        Some(x) => *x,
        None => 0,
    }
}

/// The microsecond count of an absolute duration, using the fixed
/// approximations of a 365.25-day year and a 30.44-day month.
pub open spec fn micros_of(d: InDuration) -> int {
    ov(d.years) * 31_557_600_000_000 + ov(d.months) * 2_630_016_000_000 + ov(d.weeks)
        * 604_800_000_000 + ov(d.days) * 86_400_000_000 + ov(d.hours) * 3_600_000_000 + ov(d.mins)
        * 60_000_000 + ov(d.secs) * 1_000_000 + ov(d.millis) * 1000 + ov(d.micros)
}

/// The space-joined relative text of an absolute duration, coarsest field
/// first, absent fields printed as 0.
pub open spec fn duration_rel_text(d: InDuration) -> Seq<char> {
    dec_text(ov(d.years)) + "y "@ + dec_text(ov(d.months)) + "M "@ + dec_text(ov(d.weeks)) + "w "@
        + dec_text(ov(d.days)) + "d "@ + dec_text(ov(d.hours)) + "h "@ + dec_text(ov(d.mins))
        + "m "@ + dec_text(ov(d.secs)) + "s "@ + dec_text(ov(d.millis)) + "ms "@ + dec_text(
        ov(d.micros),
    ) + "µs"@
}

impl InDuration {
    /// An absolute duration with no field set.
    pub fn empty() -> (r: InDuration)
        ensures
            micros_of(r) == 0,
    {
        InDuration {
            micros: None,
            millis: None,
            secs: None,
            mins: None,
            hours: None,
            days: None,
            weeks: None,
            months: None,
            years: None,
        }
    }

    /// Fold the nine optional fields into one exact microsecond count.
    pub fn to_microseconds(&self) -> (r: u128)
        ensures
            r == micros_of(*self),
    {
        ov_x(&self.years) as u128 * 31_557_600_000_000 + ov_x(&self.months) as u128
            * 2_630_016_000_000 + ov_x(&self.weeks) as u128 * 604_800_000_000 + ov_x(&self.days)
            as u128 * 86_400_000_000 + ov_x(&self.hours) as u128 * 3_600_000_000 + ov_x(&self.mins)
            as u128 * 60_000_000 + ov_x(&self.secs) as u128 * 1_000_000 + ov_x(&self.millis)
            as u128 * 1000 + ov_x(&self.micros) as u128
    }

    /// Render the duration as its space-joined relative text.
    pub fn to_text(&self) -> (r: String)
        ensures
            r@ == duration_rel_text(*self),
    {
        let mut s = String::new();
        push_decimal(&mut s, ov_x(&self.years));
        s.append("y ");
        push_decimal(&mut s, ov_x(&self.months));
        s.append("M ");
        push_decimal(&mut s, ov_x(&self.weeks));
        s.append("w ");
        push_decimal(&mut s, ov_x(&self.days));
        s.append("d ");
        push_decimal(&mut s, ov_x(&self.hours));
        s.append("h ");
        push_decimal(&mut s, ov_x(&self.mins));
        s.append("m ");
        push_decimal(&mut s, ov_x(&self.secs));
        s.append("s ");
        push_decimal(&mut s, ov_x(&self.millis));
        s.append("ms ");
        push_decimal(&mut s, ov_x(&self.micros));
        s.append("µs");
        proof {
            assert(s@ =~= duration_rel_text(*self));
        }
        s
    }
}

/// The lines of sibling timers joined with line breaks.
pub open spec fn join_lines(ss: Seq<Seq<char>>) -> Seq<char>
    decreases ss.len(),
{
    if ss.len() == 0 {
        Seq::empty()
    } else if ss.len() == 1 {
        ss[0]
    } else {
        join_lines(ss.drop_last()) + "\n"@ + ss.last()
    }
}

/// The overall parse result: the timer tree.
pub enum Timer {
    Timers(Vec<Timer>),
    Calendar(Calendar),
    Duration { kind: DurationKind, duration: InDuration },
    In(In),
}

impl Timer {
    pub open spec fn wf(self) -> bool
        decreases self,
    {
        match self {
            Timer::Timers(v) => forall|i: int| 0 <= i < v@.len() ==> (#[trigger] v@[i]).wf(),
            Timer::Calendar(c) => true,
            Timer::Duration { kind, duration } => true,
            Timer::In(x) => x.wf(),
        }
    }

    /// `out` is the directive text of this timer against `now`: one line
    /// per leaf, siblings joined with line breaks in order.
    pub open spec fn renders(self, now: Instant, out: Seq<char>) -> bool
        decreases self,
    {
        match self {
            Timer::Timers(v) => exists|ss: Seq<Seq<char>>|
                ss.len() == v@.len() && (forall|i: int|
                    0 <= i < v@.len() ==> (#[trigger] v@[i]).renders(now, ss[i])) && out
                    == join_lines(ss),
            Timer::Calendar(c) => false,
            Timer::Duration { kind, duration } => if kind == DurationKind::IN {
                exists|j: Instant|
                    j.wf() && (#[trigger] j.total_seconds()) == now.total_seconds() + micros_of(
                        duration,
                    ) / 1000000 && out == on_calendar_text(j)
            } else {
                out == key_text(kind) + duration_rel_text(duration)
            },
            Timer::In(x) => exists|j: Instant|
                j.wf() && #[trigger] x.resolves(now, j) && out == on_calendar_text(j),
        }
    }

    /// The cause under which rendering against `now` fails: a failing
    /// child of a list (rendering stops at the first), an absolute
    /// instant off the calendar, or the unimplemented calendar form.
    pub open spec fn fails(self, now: Instant, c: ErrorCause) -> bool
        decreases self,
    {
        match self {
            Timer::Timers(v) => exists|i: int|
                0 <= i < v@.len() && (#[trigger] v@[i]).fails(now, c),
            Timer::Calendar(cal) => c == ErrorCause::Unsupported,
            Timer::Duration { kind, duration } => kind == DurationKind::IN && now.total_seconds()
                + micros_of(duration) / 1000000 >= 86400 * days_before_year(10000) && c
                == ErrorCause::OutOfRange,
            Timer::In(x) => x.fails(now, c),
        }
    }

    /// Render the whole tree as directive text against the reference
    /// instant `now`.
    pub fn timer(&self, now: &Instant) -> (r: Result<String, ParseError>)
        requires
            now.wf(),
            self.wf(),
        ensures
            match r {
                Ok(s) => self.renders(*now, s@),
                Err(e) => self.fails(*now, e.cause),
            },
        decreases *self,
    {
        match self {
            Timer::In(x) => x.timer(now),
            Timer::Calendar(cal) => Err(ParseError::new(ErrorCause::Unsupported)),
            Timer::Duration { kind, duration } => {
                if *kind == DurationKind::IN {
                    let micros = duration.to_microseconds();
                    let secs: u128 = micros / 1_000_000;
                    proof {
                        lemma_days_before_year_bounds(10000);
                        lemma_days_before_year_bounds(now.year as nat);
                        crate::date::lemma_days_before_month_bounds(
                            now.year as int,
                            now.month as nat,
                        );
                    }
                    if secs > 0x1_0000_0000_0000u128 {
                        return Err(ParseError::new(ErrorCause::OutOfRange));
                    }
                    match add_seconds(now, secs as u64) {
                        Some(j) => {
                            let line = render_on_calendar(&j);
                            proof {
                                assert(j.total_seconds() == now.total_seconds() + micros_of(
                                    *duration,
                                ) / 1000000);
                            }
                            Ok(line)
                        },
                        None => Err(ParseError::new(ErrorCause::OutOfRange)),
                    }
                } else {
                    let mut line = String::from_str(key_str(kind));
                    let body = duration.to_text();
                    line.append(body.as_str());
                    proof {
                        assert(line@ =~= key_text(*kind) + duration_rel_text(*duration));
                    }
                    Ok(line)
                }
            },
            Timer::Timers(v) => {
                let n = v.len();
                let mut acc = String::new();
                let ghost mut ss: Seq<Seq<char>> = Seq::empty();
                let mut i: usize = 0;
                while i < n
                    invariant
                        *self == Timer::Timers(*v),
                        i <= n,
                        n == v@.len(),
                        now.wf(),
                        ss.len() == i,
                        forall|k: int| 0 <= k < n ==> (#[trigger] v@[k]).wf(),
                        forall|k: int| 0 <= k < i ==> (#[trigger] v@[k]).renders(*now, ss[k]),
                        acc@ == join_lines(ss),
                    decreases n - i,
                {
                    let child = &v[i];
                    proof {
                        assert(v@[i as int].wf());
                        assert(decreases_to!(*self => self->Timers_0));
                        assert(decreases_to!(self->Timers_0 => self->Timers_0@));
                        assert(decreases_to!(self->Timers_0@ => self->Timers_0@[i as int]));
                        assert(decreases_to!(*self => v@[i as int]));
                    }
                    match child.timer(now) {
                        Ok(line) => {
                            if i == 0 {
                                acc = line;
                                proof {
                                    ss = ss.push(acc@);
                                    assert(join_lines(ss) == ss[0]);
                                }
                            } else {
                                acc.append("\n");
                                acc.append(line.as_str());
                                proof {
                                    let ss2 = ss.push(line@);
                                    assert(ss2.drop_last() =~= ss);
                                    assert(join_lines(ss2) == join_lines(ss) + "\n"@ + line@);
                                    ss = ss2;
                                    assert(acc@ =~= join_lines(ss));
                                }
                            }
                        },
                        Err(e) => {
                            proof {
                                assert(v@[i as int].fails(*now, e.cause));
                                assert(self.fails(*now, e.cause));
                            }
                            return Err(e);
                        },
                    }
                    i = i + 1;
                }
                proof {
                    assert(self.renders(*now, acc@));
                }
                Ok(acc)
            },
        }
    }
}


// ---------------------------------------------------------------------------
// Parsing the timer tree
// ---------------------------------------------------------------------------
/// Parse each `;`-separated segment from position `i` on as one relative
/// expression. The first failing segment fails the whole parse; no
/// partial result is kept.
pub open spec fn spec_parse_timers(s: Seq<char>, i: int) -> Result<Seq<In>, ErrorCause>
    decreases s.len() - i,
    when 0 <= i <= s.len()
    via spec_parse_timers_decreases
{
    let k = semi_end(s, i);
    match spec_parse_in(s.subrange(i, k)) {
        Err(c) => Err(c),
        Ok(x) => if k == s.len() {
            Ok(seq![x])
        } else {
            match spec_parse_timers(s, k + 1) {
                Ok(rest) => Ok(seq![x] + rest),
                Err(c) => Err(c),
            }
        },
    }
}

#[via_fn]
proof fn spec_parse_timers_decreases(s: Seq<char>, i: int) {
    lemma_semi_end_range(s, i);
}

/// `t` is the tree the segment expressions `xs` parse to: a lone segment
/// stays a leaf, several become a list node in order.
pub open spec fn timer_of_segments(t: Timer, xs: Seq<In>) -> bool {
    if xs.len() == 1 {
        t == Timer::In(xs[0])
    } else {
        match t {
            Timer::Timers(v) => v@.len() == xs.len() && forall|q: int|
                0 <= q < xs.len() ==> v@[q] == Timer::In(xs[q]),
            _ => false,
        }
    }
}

fn parse_segments(s: &str, v: &Vec<char>, start: usize) -> (r: Result<Vec<Timer>, ParseError>)
    requires
        v@ == s@,
        start <= v@.len(),
    ensures
        match r {
            Ok(ts) => match spec_parse_timers(s@, start as int) {
                Ok(xs) => ts@.len() == xs.len() && forall|q: int|
                    0 <= q < xs.len() ==> ts@[q] == Timer::In(xs[q]) && (#[trigger] ts@[q]).wf(),
                Err(c) => false,
            },
            Err(e) => spec_parse_timers(s@, start as int) == Err::<Seq<In>, ErrorCause>(e.cause),
        },
    decreases v@.len() - start,
{
    let n = v.len();
    let k = semi_end_x(v, start);
    let seg: &str = s.substring_char(start, k);
    let x = match In::from_str(seg) {
        Ok(x) => x,
        Err(e) => {
            return Err(e);
        },
    };
    if k == n {
        let mut out: Vec<Timer> = Vec::new();
        out.push(Timer::In(x));
        proof {
            assert(out@ =~= seq![Timer::In(x)]);
        }
        Ok(out)
    } else {
        match parse_segments(s, v, k + 1) {
            Ok(rest) => {
                let mut out: Vec<Timer> = Vec::new();
                out.push(Timer::In(x));
                let ghost rest_view = rest@;
                let mut rv = rest;
                proof {
                    assert(out@ =~= seq![Timer::In(x)] + rest_view.subrange(0, 0));
                    assert(rv@ =~= rest_view.subrange(0, rest_view.len() as int));
                }
                while rv.len() > 0
                    invariant
                        rv@.len() <= rest_view.len(),
                        rv@ == rest_view.subrange(
                            rest_view.len() - rv@.len(),
                            rest_view.len() as int,
                        ),
                        out@ == seq![Timer::In(x)] + rest_view.subrange(
                            0,
                            rest_view.len() - rv@.len(),
                        ),
                    decreases rv.len(),
                {
                    let ghost done = rest_view.len() - rv@.len();
                    let item = rv.remove(0);
                    proof {
                        assert(item == rest_view[done]);
                        assert(rv@ =~= rest_view.subrange(done + 1, rest_view.len() as int));
                    }
                    out.push(item);
                    proof {
                        assert(out@ =~= seq![Timer::In(x)] + rest_view.subrange(0, done + 1));
                    }
                }
                proof {
                    assert(out@ =~= seq![Timer::In(x)] + rest_view);
                }
                Ok(out)
            },
            Err(e) => Err(e),
        }
    }
}


/// A successful segment parse yields one expression per segment: at
/// least one, and at least two when a separator is present.
proof fn lemma_parse_timers_nonempty(s: Seq<char>, i: int)
    requires
        0 <= i <= s.len(),
        spec_parse_timers(s, i) is Ok,
    ensures
        spec_parse_timers(s, i)->Ok_0.len() >= 1,
        semi_end(s, i) < s.len() ==> spec_parse_timers(s, i)->Ok_0.len() >= 2,
    decreases s.len() - i,
{
    lemma_semi_end_range(s, i);
    let k = semi_end(s, i);
    if k < s.len() {
        lemma_parse_timers_nonempty(s, k + 1);
    }
}

impl Timer {
    /// Parse a whole timer expression: a `;`-separated list of segments
    /// becomes a list node, a lone segment stays a leaf.
    pub fn from_str(s: &str) -> (r: Result<Timer, ParseError>)
        ensures
            match r {
                Ok(t) => t.wf() && match spec_parse_timers(s@, 0) {
                    Ok(xs) => timer_of_segments(t, xs),
                    Err(c) => false,
                },
                Err(e) => spec_parse_timers(s@, 0) == Err::<Seq<In>, ErrorCause>(e.cause),
            },
    {
        let v = to_char_vec(s);
        let n = v.len();
        let k = semi_end_x(&v, 0);
        if k == n {
            proof {
                assert(v@.subrange(0, n as int) =~= s@);
            }
            match In::from_str(s) {
                Ok(x) => Ok(Timer::In(x)),
                Err(e) => Err(e),
            }
        } else {
            match parse_segments(s, &v, 0) {
                Ok(ts) => {
                    let ghost xs = spec_parse_timers(s@, 0)->Ok_0;
                    proof {
                        lemma_semi_end_range(v@, 0);
                        lemma_parse_timers_nonempty(s@, 0);
                        assert(xs.len() >= 2);
                    }
                    Ok(Timer::Timers(ts))
                },
                Err(e) => Err(e),
            }
        }
    }
}

/// The capability the scheduler-facing side needs of every schedulable
/// value: render directive text against a reference instant.
pub trait TimerAble {
    /// Condition under which the value can be rendered.
    spec fn timer_wf(&self) -> bool;

    /// Render the value as scheduler directive text.
    fn timer(&self, now: &Instant) -> (r: Result<String, ParseError>)
        requires
            now.wf(),
            self.timer_wf(),
    ;
}

impl TimerAble for Timer {
    open spec fn timer_wf(&self) -> bool {
        self.wf()
    }

    fn timer(&self, now: &Instant) -> (r: Result<String, ParseError>) {
        Timer::timer(self, now)
    }
}

impl TimerAble for Instant {
    open spec fn timer_wf(&self) -> bool {
        self.wf()
    }

    /// An instant renders as its own `OnCalendar=` line.
    fn timer(&self, now: &Instant) -> (r: Result<String, ParseError>) {
        Ok(render_on_calendar(self))
    }
}


impl TimerAble for In {
    open spec fn timer_wf(&self) -> bool {
        self.wf()
    }

    fn timer(&self, now: &Instant) -> (r: Result<String, ParseError>) {
        In::timer(self, now)
    }
}

impl TimerAble for InSec {
    open spec fn timer_wf(&self) -> bool {
        self.wf()
    }

    fn timer(&self, now: &Instant) -> (r: Result<String, ParseError>) {
        InSec::timer(self, now)
    }
}

impl TimerAble for InMin {
    open spec fn timer_wf(&self) -> bool {
        self.wf()
    }

    fn timer(&self, now: &Instant) -> (r: Result<String, ParseError>) {
        InMin::timer(self, now)
    }
}

impl TimerAble for InHour {
    open spec fn timer_wf(&self) -> bool {
        self.wf()
    }

    fn timer(&self, now: &Instant) -> (r: Result<String, ParseError>) {
        InHour::timer(self, now)
    }
}

impl TimerAble for InDay {
    open spec fn timer_wf(&self) -> bool {
        self.wf()
    }

    fn timer(&self, now: &Instant) -> (r: Result<String, ParseError>) {
        InDay::timer(self, now)
    }
}

impl TimerAble for InWeek {
    open spec fn timer_wf(&self) -> bool {
        self.wf()
    }

    fn timer(&self, now: &Instant) -> (r: Result<String, ParseError>) {
        InWeek::timer(self, now)
    }
}

impl TimerAble for InMonth {
    open spec fn timer_wf(&self) -> bool {
        self.wf()
    }

    fn timer(&self, now: &Instant) -> (r: Result<String, ParseError>) {
        InMonth::timer(self, now)
    }
}

} // verus!
