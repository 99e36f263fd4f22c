//! Reading the wall clock. The one outside call of the library: chrono
//! supplies the current local time as plain field values, and a verified
//! conversion narrows them to a calendar instant.
use vstd::prelude::*;

use chrono::{Datelike, Local, Timelike};

use crate::date::{days_in_month, Instant};

verus! {

/// Relies on `chrono::Local::now` with the `Datelike`/`Timelike`
/// accessors: `month()` ranges over 1 to 12, `day()` over 1 to 31,
/// `hour()` stays below 24, `minute()` and `second()` below 60. The year
/// is whatever the system clock says.
#[verifier::external_body]
fn local_now_fields() -> (r: (i64, u32, u32, u32, u32, u32))
    ensures
        1 <= r.1 <= 12,
        1 <= r.2 <= 31,
        r.3 < 24,
        r.4 < 60,
        r.5 < 60,
{
    let now = Local::now();
    (now.year() as i64, now.month(), now.day(), now.hour(), now.minute(), now.second())
}

/// The current local time as a calendar instant. `None` when the system
/// clock reports a date outside the supported years, or fields that do
/// not form a calendar date.
pub fn now_instant() -> (r: Option<Instant>)
    ensures
        match r {
            Some(i) => i.wf(),
            None => true,
        },
{
    let f = local_now_fields();
    if f.0 < 0 || f.0 > 9999 {
        return None;
    }
    let year: u32 = f.0 as u32;
    if f.2 > days_in_month(year, f.1) {
        return None;
    }
    Some(Instant { year, month: f.1, day: f.2, hour: f.3, minute: f.4, second: f.5 })
}

} // verus!
