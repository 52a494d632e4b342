//! The wall clock.
use vstd::prelude::*;

use crate::text::padded;

verus! {

/// A time of day as `HH:MM:SS`.
pub open spec fn is_time_of_day(s: Seq<char>) -> bool {
    exists|h: nat, m: nat, sec: nat|
        h < 24 && m < 60 && sec <= 60 && s == #[trigger] time_of_day_text(h, m, sec)
}

/// Hours, minutes and seconds, two digits each.
pub open spec fn time_of_day_text(h: nat, m: nat, sec: nat) -> Seq<char> {
    padded(h, 2) + ":"@ + padded(m, 2) + ":"@ + padded(sec, 2)
}

/// `chrono::Utc::now` and `timestamp_millis`: the present as Unix
/// milliseconds. Nothing is claimed of it.
#[verifier::external_body]
pub(crate) fn now_ms() -> (r: i64) {
    chrono::Utc::now().timestamp_millis()
}

/// `chrono::Utc::now` formatted with `%H:%M:%S`. Claimed: hours, minutes and
/// seconds of two digits each, in their ranges, a leap second among them.
/// Which time it is, is not claimed.
#[verifier::external_body]
pub(crate) fn time_of_day() -> (r: String)
    ensures
        is_time_of_day(r@),
{
    chrono::Utc::now().format("%H:%M:%S").to_string()
}

} // verus!
