//! Translation of human-friendly schedule expressions ("in 1h30m at :15")
//! into scheduler directive lines (`OnCalendar=...`, `OnActiveSec=...`).
//!
//! An input is a `;`-separated list of relative expressions. Each one is
//! tokenized, folded over the unit lattice into one count of its finest
//! unit, optionally anchored ("at Monday 8"), resolved against a
//! reference instant, and rendered as one directive line.
use vstd::prelude::*;

pub mod anchors;
pub mod clock;
pub mod date;
pub mod errors;
pub mod inexpr;
pub mod laws;
pub mod parse;
pub mod text;
pub mod timer;
pub mod unit;

use crate::date::Instant;
use crate::errors::{ErrorCause, ParseError};
use crate::timer::{spec_parse_timers, timer_of_segments, Timer};

verus! {

/// `out` is the directive text of `input` rendered against `now`.
pub open spec fn render_ok(input: Seq<char>, now: Instant, out: Seq<char>) -> bool {
    match spec_parse_timers(input, 0) {
        Ok(xs) => exists|t: Timer| #[trigger] timer_of_segments(t, xs) && t.renders(now, out),
        Err(c) => false,
    }
}

/// Rendering `input` against `now` fails under the cause `c`: either the
/// parse itself fails with it, or the parsed tree does.
pub open spec fn render_err(input: Seq<char>, now: Instant, c: ErrorCause) -> bool {
    match spec_parse_timers(input, 0) {
        Ok(xs) => exists|t: Timer| #[trigger] timer_of_segments(t, xs) && t.fails(now, c),
        Err(c2) => c == c2,
    }
}

/// Parse a timer expression and render it against the given reference
/// instant: one directive line per segment, joined with line breaks.
pub fn render_at(input: &str, now: &Instant) -> (r: Result<String, ParseError>)
    requires
        now.wf(),
    ensures
        match r {
            Ok(out) => render_ok(input@, *now, out@),
            Err(e) => render_err(input@, *now, e.cause),
        },
{
    let t = match Timer::from_str(input) {
        Ok(t) => t,
        Err(e) => {
            return Err(e);
        },
    };
    match t.timer(now) {
        Ok(out) => {
            proof {
                let xs = spec_parse_timers(input@, 0)->Ok_0;
                assert(timer_of_segments(t, xs) && t.renders(*now, out@));
            }
            Ok(out)
        },
        Err(e) => {
            proof {
                let xs = spec_parse_timers(input@, 0)->Ok_0;
                assert(timer_of_segments(t, xs) && t.fails(*now, e.cause));
            }
            Err(e)
        },
    }
}

/// Parse a timer expression and render it against the current local
/// time, read from the wall clock once.
pub fn render_now(input: &str) -> (r: Result<String, ParseError>)
    ensures
        match r {
            Ok(out) => exists|now: Instant| now.wf() && #[trigger] render_ok(input@, now, out@),
            Err(e) => e.cause == ErrorCause::OutOfRange || exists|now: Instant|
                now.wf() && #[trigger] render_err(input@, now, e.cause),
        },
{
    match crate::clock::now_instant() {
        Some(now) => {
            match render_at(input, &now) {
                Ok(out) => {
                    proof {
                        assert(render_ok(input@, now, out@));
                    }
                    Ok(out)
                },
                Err(e) => {
                    proof {
                        assert(render_err(input@, now, e.cause));
                    }
                    Err(e)
                },
            }
        },
        None => Err(ParseError::new(ErrorCause::OutOfRange)),
    }
}

} // verus!
