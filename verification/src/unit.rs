//! The unit lattice: the total order second < minute < hour < day < week
//! < month < year, with exact integer conversion along adjacent levels.
//! Weeks do not divide months, so the only conversion that crosses the
//! week/month boundary is year -> month.
use vstd::prelude::*;

use crate::errors::{ErrorCause, ParseError};
use crate::text::{eq_ci, range_eq, range_eq_ci, to_char_vec};

verus! {

#[derive(Clone, Copy, PartialEq, Eq, Structural, Debug)]
pub enum Unit {
    Sec,
    Min,
    Hour,
    Day,
    Week,
    Month,
    Year,
}

/// Position in the total order, finest first.
pub open spec fn rank(u: Unit) -> int {
    match u {
        Unit::Sec => 0,
        Unit::Min => 1,
        Unit::Hour => 2,
        Unit::Day => 3,
        Unit::Week => 4,
        Unit::Month => 5,
        Unit::Year => 6,
    }
}

/// The next finer unit on the conversion lattice.
pub open spec fn finer(u: Unit) -> Unit {
    match u {
        Unit::Min => Unit::Sec,
        Unit::Hour => Unit::Min,
        Unit::Day => Unit::Hour,
        Unit::Week => Unit::Day,
        Unit::Year => Unit::Month,
        _ => u,
    }
}

/// Exact ratio between a unit and the next finer one on the lattice.
pub open spec fn step_ratio(u: Unit) -> int {
    match u {
        Unit::Min => 60,
        Unit::Hour => 60,
        Unit::Day => 24,
        Unit::Week => 7,
        Unit::Year => 12,
        _ => 1,
    }
}

/// Whether a count in `from` has an exact integer expression in `to`:
/// either the units are equal, or `to` is finer and a lattice path leads
/// down to it. Weeks and months are not connected in either direction.
pub open spec fn convertible(from: Unit, to: Unit) -> bool {
    if from == to {
        true
    } else if from == Unit::Year {
        to == Unit::Month
    } else if from == Unit::Month {
        false
    } else {
        rank(to) < rank(from)
    }
}

/// The exact multiplier taking a count in `from` to a count in `to`,
/// or 0 when no lattice path connects them.
pub open spec fn factor(from: Unit, to: Unit) -> int
    decreases rank(from),
{
    if from == to {
        1
    } else if convertible(from, to) {
        step_ratio(from) * factor(finer(from), to)
    } else {
        0
    }
}

/// One lattice step down keeps convertibility and splits the factor.
pub proof fn lemma_factor_step(from: Unit, to: Unit)
    requires
        convertible(from, to),
        from != to,
    ensures
        convertible(finer(from), to),
        factor(from, to) == step_ratio(from) * factor(finer(from), to),
{
}

pub proof fn lemma_factor_pos(from: Unit, to: Unit)
    requires
        convertible(from, to),
    ensures
        factor(from, to) >= 1,
    decreases rank(from),
{
    if from != to {
        lemma_factor_step(from, to);
        lemma_factor_pos(finer(from), to);
        assert(factor(from, to) >= 1) by (nonlinear_arith)
            requires
                factor(from, to) == step_ratio(from) * factor(finer(from), to),
                step_ratio(from) >= 1,
                factor(finer(from), to) >= 1,
        ;
    }
}

/// Ceiling on the conversion factor out of each unit: the factor down to
/// seconds along the chain, or to months from a year.
pub open spec fn factor_cap(u: Unit) -> int {
    match u {
        Unit::Sec => 1,
        Unit::Min => 60,
        Unit::Hour => 3600,
        Unit::Day => 86400,
        Unit::Week => 604800,
        Unit::Month => 1,
        Unit::Year => 12,
    }
}

pub proof fn lemma_factor_cap(from: Unit, to: Unit)
    requires
        convertible(from, to),
    ensures
        1 <= factor(from, to) <= factor_cap(from),
    decreases rank(from),
{
    lemma_factor_pos(from, to);
    if from != to {
        lemma_factor_step(from, to);
        lemma_factor_cap(finer(from), to);
        assert(step_ratio(from) * factor(finer(from), to) <= step_ratio(from) * factor_cap(
            finer(from),
        )) by (nonlinear_arith)
            requires
                factor(finer(from), to) <= factor_cap(finer(from)),
                step_ratio(from) >= 1,
        ;
        assert(step_ratio(from) * factor_cap(finer(from)) == factor_cap(from));
    }
}

/// Conversion factors compose along the lattice.
pub proof fn lemma_factor_trans(a: Unit, b: Unit, c: Unit)
    requires
        convertible(a, b),
        convertible(b, c),
    ensures
        convertible(a, c),
        factor(a, c) == factor(a, b) * factor(b, c),
    decreases rank(a),
{
    if a == b {
        assert(factor(a, b) == 1);
        assert(factor(a, c) == factor(a, b) * factor(b, c));
    } else if b == c {
        assert(factor(b, c) == 1);
        assert(factor(a, c) == factor(a, b) * factor(b, c));
    } else {
        lemma_factor_step(a, b);
        lemma_factor_trans(finer(a), b, c);
        assert(convertible(a, c) && a != c);
        lemma_factor_step(a, c);
        let s = step_ratio(a);
        let f1 = factor(finer(a), b);
        let f2 = factor(b, c);
        assert(factor(finer(a), c) == f1 * f2);
        assert(factor(a, c) == s * (f1 * f2));
        assert(s * (f1 * f2) == (s * f1) * f2) by (nonlinear_arith);
        assert(factor(a, b) * factor(b, c) == (s * f1) * f2);
        assert(factor(a, c) == factor(a, b) * factor(b, c));
    }
}

pub fn rank_x(u: &Unit) -> (r: u32)
    ensures
        r == rank(*u),
{
    match u {
        Unit::Sec => 0,
        Unit::Min => 1,
        Unit::Hour => 2,
        Unit::Day => 3,
        Unit::Week => 4,
        Unit::Month => 5,
        Unit::Year => 6,
    }
}

pub fn convertible_x(from: &Unit, to: &Unit) -> (r: bool)
    ensures
        r == convertible(*from, *to),
{
    if *from == *to {
        true
    } else {
        match (from, to) {
            (Unit::Year, Unit::Month) => true,
            (Unit::Year, _) => false,
            (Unit::Month, _) => false,
            (_, Unit::Month) => false,
            (_, Unit::Year) => false,
            (Unit::Week, _) => true,
            (Unit::Day, Unit::Week) => false,
            (Unit::Day, _) => true,
            (Unit::Hour, Unit::Min) => true,
            (Unit::Hour, Unit::Sec) => true,
            (Unit::Hour, _) => false,
            (Unit::Min, Unit::Sec) => true,
            (Unit::Min, _) => false,
            (Unit::Sec, _) => false,
        }
    }
}

fn step_ratio_x(u: &Unit) -> (r: u32)
    ensures
        r == step_ratio(*u),
{
    match u {
        Unit::Min => 60,
        Unit::Hour => 60,
        Unit::Day => 24,
        Unit::Week => 7,
        Unit::Year => 12,
        _ => 1,
    }
}

fn finer_x(u: &Unit) -> (r: Unit)
    ensures
        r == finer(*u),
{
    match u {
        Unit::Min => Unit::Sec,
        Unit::Hour => Unit::Min,
        Unit::Day => Unit::Hour,
        Unit::Week => Unit::Day,
        Unit::Year => Unit::Month,
        Unit::Sec => Unit::Sec,
        Unit::Month => Unit::Month,
    }
}

fn convert_down(u: Unit, to: Unit, v: u32) -> (r: u32)
    requires
        convertible(u, to),
        v * factor(u, to) <= u32::MAX,
    ensures
        r == v * factor(u, to),
    decreases rank(u),
{
    if u == to {
        v
    } else {
        let s = step_ratio_x(&u);
        proof {
            lemma_factor_step(u, to);
            lemma_factor_pos(finer(u), to);
            let f2 = factor(finer(u), to);
            assert(v * step_ratio(u) <= u32::MAX) by (nonlinear_arith)
                requires
                    v * (step_ratio(u) * f2) <= u32::MAX,
                    f2 >= 1,
                    step_ratio(u) >= 1,
                    v >= 0,
            ;
            assert((v * step_ratio(u)) * f2 == v * (step_ratio(u) * f2)) by (nonlinear_arith);
        }
        let w: u32 = v * s;
        let r = convert_down(finer_x(&u), to, w);
        proof {
            assert(r == (v * step_ratio(u)) * factor(finer(u), to));
        }
        r
    }
}

/// The token a unit is written as in rendered text.
pub open spec fn unit_token(u: Unit) -> Seq<char> {
    match u {
        Unit::Sec => "s"@,
        Unit::Min => "m"@,
        Unit::Hour => "h"@,
        Unit::Day => "d"@,
        Unit::Week => "w"@,
        Unit::Month => "M"@,
        Unit::Year => "y"@,
    }
}

/// The unit a token denotes. Long and short forms are recognized case
/// insensitively, except that the bare letters `m` and `M` distinguish
/// minutes from months by case.
pub open spec fn unit_of_token(s: Seq<char>) -> Option<Unit> {
    if s == "m"@ {
        Some(Unit::Min)
    } else if s == "M"@ {
        Some(Unit::Month)
    } else if eq_ci(s, "s"@) || eq_ci(s, "sec"@) || eq_ci(s, "second"@) || eq_ci(s, "seconds"@) {
        Some(Unit::Sec)
    } else if eq_ci(s, "min"@) || eq_ci(s, "minute"@) || eq_ci(s, "minutes"@) {
        Some(Unit::Min)
    } else if eq_ci(s, "h"@) || eq_ci(s, "hr"@) || eq_ci(s, "hour"@) || eq_ci(s, "hours"@) {
        Some(Unit::Hour)
    } else if eq_ci(s, "d"@) || eq_ci(s, "day"@) || eq_ci(s, "days"@) {
        Some(Unit::Day)
    } else if eq_ci(s, "w"@) || eq_ci(s, "week"@) || eq_ci(s, "weeks"@) {
        Some(Unit::Week)
    } else if eq_ci(s, "month"@) || eq_ci(s, "months"@) {
        Some(Unit::Month)
    } else if eq_ci(s, "y"@) || eq_ci(s, "year"@) || eq_ci(s, "years"@) {
        Some(Unit::Year)
    } else {
        None
    }
}

impl Unit {
    /// Express `v` of unit `self` exactly in the finer-or-equal unit
    /// `other`: the count multiplied by the lattice factor, or `None`
    /// when no lattice path leads from `self` down to `other`.
    pub fn to_lower_or_equal(&self, other: &Self, v: u32) -> (r: Option<u32>)
        requires
            convertible(*self, *other) ==> v * factor(*self, *other) <= u32::MAX,
        ensures
            match r {
                Some(w) => convertible(*self, *other) && w == v * factor(*self, *other),
                None => !convertible(*self, *other),
            },
    {
        if convertible_x(self, other) {
            Some(convert_down(*self, *other, v))
        } else {
            None
        }
    }

    /// The token this unit renders as.
    pub fn to_token(&self) -> (r: &'static str)
        ensures
            r@ == unit_token(*self),
    {
        match self {
            Unit::Sec => "s",
            Unit::Min => "m",
            Unit::Hour => "h",
            Unit::Day => "d",
            Unit::Week => "w",
            Unit::Month => "M",
            Unit::Year => "y",
        }
    }

    /// The unit denoted by the token `v[from..to]`.
    pub fn of_token_range(v: &Vec<char>, from: usize, to: usize) -> (r: Result<Unit, ParseError>)
        requires
            from <= to <= v@.len(),
        ensures
            match r {
                Ok(u) => unit_of_token(v@.subrange(from as int, to as int)) == Some(u),
                Err(e) => unit_of_token(v@.subrange(from as int, to as int)) is None && e.cause
                    == ErrorCause::UnrecognizedUnit,
            },
    {
        if range_eq(v, from, to, "m") {
            Ok(Unit::Min)
        } else if range_eq(v, from, to, "M") {
            Ok(Unit::Month)
        } else if range_eq_ci(v, from, to, "s") || range_eq_ci(v, from, to, "sec") || range_eq_ci(
            v,
            from,
            to,
            "second",
        ) || range_eq_ci(v, from, to, "seconds") {
            Ok(Unit::Sec)
        } else if range_eq_ci(v, from, to, "min") || range_eq_ci(v, from, to, "minute")
            || range_eq_ci(v, from, to, "minutes") {
            Ok(Unit::Min)
        } else if range_eq_ci(v, from, to, "h") || range_eq_ci(v, from, to, "hr") || range_eq_ci(
            v,
            from,
            to,
            "hour",
        ) || range_eq_ci(v, from, to, "hours") {
            Ok(Unit::Hour)
        } else if range_eq_ci(v, from, to, "d") || range_eq_ci(v, from, to, "day") || range_eq_ci(
            v,
            from,
            to,
            "days",
        ) {
            Ok(Unit::Day)
        } else if range_eq_ci(v, from, to, "w") || range_eq_ci(v, from, to, "week") || range_eq_ci(
            v,
            from,
            to,
            "weeks",
        ) {
            Ok(Unit::Week)
        } else if range_eq_ci(v, from, to, "month") || range_eq_ci(v, from, to, "months") {
            Ok(Unit::Month)
        } else if range_eq_ci(v, from, to, "y") || range_eq_ci(v, from, to, "year") || range_eq_ci(
            v,
            from,
            to,
            "years",
        ) {
            Ok(Unit::Year)
        } else {
            Err(ParseError::new(ErrorCause::UnrecognizedUnit))
        }
    }

    /// The unit denoted by a whole token string.
    pub fn from_str(s: &str) -> (r: Result<Unit, ParseError>)
        ensures
            match r {
                Ok(u) => unit_of_token(s@) == Some(u),
                Err(e) => unit_of_token(s@) is None && e.cause == ErrorCause::UnrecognizedUnit,
            },
    {
        let v = to_char_vec(s);
        let n = v.len();
        proof {
            assert(v@.subrange(0, n as int) =~= s@);
        }
        Unit::of_token_range(&v, 0, n)
    }
}

} // verus!
