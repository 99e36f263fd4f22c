//! The general laws of the library, each proved once and for all inputs:
//! folding agrees with converting every term to the finest unit and
//! summing, in either term order; unconnected units always fail to fold;
//! weekday anchors land on the requested weekday; and the counted
//! weekday-of-month occurrences behave at both ends of the month.
use vstd::prelude::*;

use crate::anchors::{AtNthWeekDay, AtWeekDay};
use crate::date::{date_weekday, days_in_month_of, Instant};
use crate::errors::ErrorCause;
use crate::inexpr::spec_fold;
use crate::unit::{convertible, factor, lemma_factor_pos, lemma_factor_trans, rank, Unit};

verus! {

/// The value of the pairs expressed in unit `f` and summed.
pub open spec fn sum_in(ps: Seq<(u32, Unit)>, f: Unit) -> int
    decreases ps.len(),
{
    if ps.len() == 0 {
        0
    } else {
        sum_in(ps.drop_last(), f) + ps.last().0 * factor(ps.last().1, f)
    }
}

/// Re-expressing a sum in a finer unit multiplies it by the lattice
/// factor between the units.
proof fn lemma_sum_in_rescale(ps: Seq<(u32, Unit)>, f: Unit, g: Unit)
    requires
        convertible(f, g),
        forall|i: int| 0 <= i < ps.len() ==> convertible((#[trigger] ps[i]).1, f),
    ensures
        sum_in(ps, g) == sum_in(ps, f) * factor(f, g),
        forall|i: int| 0 <= i < ps.len() ==> convertible((#[trigger] ps[i]).1, g),
    decreases ps.len(),
{
    let ff = factor(f, g);
    if ps.len() == 0 {
        assert(0 * ff == 0) by (nonlinear_arith);
    } else {
        let dl = ps.drop_last();
        assert(forall|i: int| 0 <= i < dl.len() ==> dl[i] == ps[i]);
        lemma_sum_in_rescale(dl, f, g);
        let v = ps.last().0 as int;
        let u = ps.last().1;
        assert(ps.last() == ps[ps.len() - 1]);
        assert(convertible(u, f));
        lemma_factor_trans(u, f, g);
        assert(v * (factor(u, f) * ff) == (v * factor(u, f)) * ff) by (nonlinear_arith);
        assert(sum_in(dl, f) * ff + (v * factor(u, f)) * ff == (sum_in(dl, f) + v * factor(u, f))
            * ff) by (nonlinear_arith);
        assert forall|i: int| 0 <= i < ps.len() implies convertible((#[trigger] ps[i]).1, g) by {
            lemma_factor_trans(ps[i].1, f, g);
        };
    }
}

/// Law: a compound offset that folds successfully folds to the value
/// obtained by converting every term into the finest unit and summing.
pub proof fn lemma_fold_is_sum(ps: Seq<(u32, Unit)>)
    requires
        spec_fold(ps) is Ok,
    ensures
        ({
            let t = spec_fold(ps)->Ok_0.0;
            let f = spec_fold(ps)->Ok_0.1;
            &&& forall|i: int| 0 <= i < ps.len() ==> convertible((#[trigger] ps[i]).1, f)
            &&& t == sum_in(ps, f)
        }),
    decreases ps.len(),
{
    reveal_with_fuel(spec_fold, 3);
    reveal_with_fuel(sum_in, 3);
    if ps.len() == 1 {
        let v = ps[0].0 as int;
        let u = ps[0].1;
        assert(ps.last() == ps[0]);
        assert(ps.drop_last().len() == 0);
        assert(factor(u, u) == 1);
    } else {
        let dl = ps.drop_last();
        lemma_fold_is_sum(dl);
        let acc = spec_fold(dl)->Ok_0;
        let t0 = acc.0;
        let f0 = acc.1;
        let v = ps.last().0 as int;
        let u = ps.last().1;
        assert(forall|i: int| 0 <= i < dl.len() ==> dl[i] == ps[i]);
        if rank(u) >= rank(f0) {
            assert(spec_fold(ps)->Ok_0.0 == t0 + v * factor(u, f0));
        } else {
            lemma_sum_in_rescale(dl, f0, u);
            assert(factor(u, u) == 1);
            assert(sum_in(ps, u) == sum_in(dl, u) + v * factor(u, u));
        }
    }
}

/// Law: a two-term compound of connected units folds to the same value
/// in either order — "1h 30m" and "30m 1h" both fold to 90 minutes.
pub proof fn lemma_fold_pair_order(x: u32, a: Unit, y: u32, b: Unit)
    requires
        convertible(a, b),
        x * factor(a, b) + y <= u32::MAX,
    ensures
        spec_fold(seq![(x, a), (y, b)]) == Ok::<(int, Unit), ErrorCause>(
            (x * factor(a, b) + y, b),
        ),
        spec_fold(seq![(y, b), (x, a)]) == spec_fold(seq![(x, a), (y, b)]),
{
    reveal_with_fuel(spec_fold, 3);
    let p = seq![(x, a), (y, b)];
    let q = seq![(y, b), (x, a)];
    assert(p.drop_last() =~= seq![(x, a)]);
    assert(q.drop_last() =~= seq![(y, b)]);
    assert(p.last() == (y, b) && p[0] == (x, a));
    assert(q.last() == (x, a) && q[0] == (y, b));
    lemma_factor_pos(a, b);
    assert(spec_fold(seq![(x, a)]) == Ok::<(int, Unit), ErrorCause>((x as int, a)));
    assert(spec_fold(seq![(y, b)]) == Ok::<(int, Unit), ErrorCause>((y as int, b)));
    if a == b {
        assert(factor(a, b) == 1 && factor(b, a) == 1);
        assert(spec_fold(p) == Ok::<(int, Unit), ErrorCause>((x * factor(a, b) + y, b)));
        assert(spec_fold(q) == Ok::<(int, Unit), ErrorCause>((x * factor(a, b) + y, b)));
    } else {
        assert(rank(b) < rank(a));
        assert(spec_fold(p) == Ok::<(int, Unit), ErrorCause>((x * factor(a, b) + y, b)));
        assert(spec_fold(q) == Ok::<(int, Unit), ErrorCause>((x * factor(a, b) + y, b)));
    }
}

/// Law: two units with no lattice path in either direction — weeks and
/// months, for one — make any two-term compound fail as incompatible,
/// in either order.
pub proof fn lemma_fold_incompatible_pair(x: u32, a: Unit, y: u32, b: Unit)
    requires
        !convertible(a, b),
        !convertible(b, a),
    ensures
        spec_fold(seq![(x, a), (y, b)]) == Err::<(int, Unit), ErrorCause>(
            ErrorCause::IncompatibleUnits,
        ),
        spec_fold(seq![(y, b), (x, a)]) == Err::<(int, Unit), ErrorCause>(
            ErrorCause::IncompatibleUnits,
        ),
{
    reveal_with_fuel(spec_fold, 3);
    let p = seq![(x, a), (y, b)];
    let q = seq![(y, b), (x, a)];
    assert(p.drop_last() =~= seq![(x, a)]);
    assert(q.drop_last() =~= seq![(y, b)]);
    assert(p.last() == (y, b) && p[0] == (x, a));
    assert(q.last() == (x, a) && q[0] == (y, b));
}

/// A date moved to lie `wd - weekday` days away lands on weekday `wd`.
proof fn lemma_weekday_of_moved(x: Instant, j: Instant, wd: int)
    requires
        1 <= wd <= 7,
        j.epoch_day() == x.epoch_day() - x.weekday_number() + wd,
    ensures
        j.weekday_number() == wd,
{
    let e = x.epoch_day() + 5;
    vstd::arithmetic::div_mod::lemma_fundamental_div_mod(e, 7);
    let quot = e / 7;
    assert(j.epoch_day() + 5 == 7 * quot + (wd - 1));
    vstd::arithmetic::div_mod::lemma_mod_multiples_vanish(quot, wd - 1, 7);
    vstd::arithmetic::div_mod::lemma_small_mod((wd - 1) as nat, 7);
}

/// Law: applying a weekday anchor lands on the requested weekday, for
/// every starting instant.
pub proof fn lemma_at_week_day_weekday(a: AtWeekDay, x: Instant, j: Instant)
    requires
        a.wf(),
        a.ok_at(x, j),
    ensures
        j.weekday_number() == a.0,
{
    lemma_weekday_of_moved(x, j, a.0 as int);
}

/// Law: the day an nth-weekday anchor selects falls on the requested
/// weekday, whether counted from the front or from the back of the
/// month.
pub proof fn lemma_nth_day_weekday(a: AtNthWeekDay, d: Instant)
    requires
        d.wf(),
        a.wf(),
        a.0 != 0,
    ensures
        date_weekday(d.year as int, d.month as int, a.nth_day(d)) == a.1,
{
    let y = d.year as int;
    let m = d.month as int;
    let wd = a.1 as int;
    let n = a.0 as int;
    if n > 0 {
        let e1 = crate::date::days_before_year(d.year as nat) + crate::date::days_before_month(
            y,
            d.month as nat,
        ) + 5;
        vstd::arithmetic::div_mod::lemma_fundamental_div_mod(e1, 7);
        vstd::arithmetic::div_mod::lemma_mod_division_less_than_divisor(e1, 7);
        let c = e1 % 7;
        let quot = e1 / 7;
        let r = (wd - (c + 1) + 7) % 7;
        assert(a.nth_day(d) == 1 + r + 7 * (n - 1));
        let target = e1 + r + 7 * (n - 1);
        assert(target == 7 * (quot + n - 1) + (c + r));
        vstd::arithmetic::div_mod::lemma_mod_multiples_vanish(quot + n - 1, c + r, 7);
        vstd::arithmetic::div_mod::lemma_add_mod_noop(c, wd - c + 6, 7);
        vstd::arithmetic::div_mod::lemma_small_mod(c as nat, 7);
        assert((c + r) % 7 == (wd + 6) % 7);
        assert(wd + 6 == 7 * 1 + (wd - 1));
        vstd::arithmetic::div_mod::lemma_mod_multiples_vanish(1, wd - 1, 7);
        vstd::arithmetic::div_mod::lemma_small_mod((wd - 1) as nat, 7);
    } else {
        let last = days_in_month_of(y, m);
        let el = crate::date::days_before_year(d.year as nat) + crate::date::days_before_month(
            y,
            d.month as nat,
        ) + last - 1 + 5;
        vstd::arithmetic::div_mod::lemma_fundamental_div_mod(el, 7);
        vstd::arithmetic::div_mod::lemma_mod_division_less_than_divisor(el, 7);
        let c = el % 7;
        let quot = el / 7;
        let r = ((c + 1) - wd + 7) % 7;
        assert(a.nth_day(d) == last - r + 7 * (n + 1));
        let target = el - r + 7 * (n + 1);
        assert(target == 7 * (quot + n + 1) + (c - r));
        vstd::arithmetic::div_mod::lemma_mod_multiples_vanish(quot + n + 1, c - r, 7);
        vstd::arithmetic::div_mod::lemma_sub_mod_noop(c, c + 8 - wd, 7);
        vstd::arithmetic::div_mod::lemma_small_mod(c as nat, 7);
        assert((c - r) % 7 == (wd - 8) % 7);
        assert(wd - 8 == 7 * (-1) + (wd - 1));
        vstd::arithmetic::div_mod::lemma_mod_multiples_vanish(-1, wd - 1, 7);
        vstd::arithmetic::div_mod::lemma_small_mod((wd - 1) as nat, 7);
    }
}

/// Law: an instant produced by an nth-weekday anchor falls on the
/// requested weekday.
pub proof fn lemma_nth_weekday_instant(a: AtNthWeekDay, d: Instant, j: Instant)
    requires
        d.wf(),
        a.wf(),
        a.ok_at(d, j),
    ensures
        j.weekday_number() == a.1,
{
    lemma_nth_day_weekday(a, d);
}

/// Law: the first occurrence of a weekday lies in the first seven days
/// of the month, and the last occurrence in its last seven days; both
/// always exist.
pub proof fn lemma_first_and_last_occurrence(a: AtNthWeekDay, d: Instant)
    requires
        d.wf(),
        a.wf(),
    ensures
        a.0 == 1 ==> 1 <= a.nth_day(d) <= 7 <= days_in_month_of(d.year as int, d.month as int),
        a.0 == -1 ==> days_in_month_of(d.year as int, d.month as int) - 6 <= a.nth_day(d)
            <= days_in_month_of(d.year as int, d.month as int),
{
    let y = d.year as int;
    let m = d.month as int;
    if a.0 == 1 {
        vstd::arithmetic::div_mod::lemma_mod_division_less_than_divisor(
            a.1 - date_weekday(y, m, 1) + 7,
            7,
        );
    }
    if a.0 == -1 {
        let last = days_in_month_of(y, m);
        vstd::arithmetic::div_mod::lemma_mod_division_less_than_divisor(
            date_weekday(y, m, last) - a.1 + 7,
            7,
        );
    }
}

/// Law: no month holds six occurrences of any weekday, so asking for
/// the sixth always fails with `NoSuchOccurrence`.
pub proof fn lemma_sixth_occurrence_fails(a: AtNthWeekDay, d: Instant)
    requires
        d.wf(),
        a.wf(),
        a.0 == 6,
    ensures
        a.err_at(d, ErrorCause::NoSuchOccurrence),
{
    let y = d.year as int;
    let m = d.month as int;
    vstd::arithmetic::div_mod::lemma_mod_division_less_than_divisor(
        a.1 - date_weekday(y, m, 1) + 7,
        7,
    );
    assert(a.nth_day(d) >= 36);
}

} // verus!
