//! Whether a stored item is too old to be handed out: its age in whole
//! seconds, measured as the `time` crate does, against the wallet's
//! freshness time (0 turns the check off).

use vstd::prelude::*;

verus! {

/// The age in whole seconds (rounded toward zero) of an instant `then`
/// seen at `now`, both as seconds and nanoseconds since the epoch.
pub open spec fn elapsed_seconds(now_sec: int, now_nsec: int, then_sec: int, then_nsec: int) -> int {
    let d = now_sec - then_sec;
    let n = now_nsec - then_nsec;
    if n > 0 && d < 0 {
        d + 1
    } else if n < 0 && d > 0 {
        d - 1
    } else {
        d
    }
}

/// A nanosecond field in its range.
pub open spec fn valid_nsec(n: int) -> bool {
    0 <= n < 1_000_000_000
}

/// The difference of two instants fits the duration type of the `time`
/// crate (which panics beyond it).
pub open spec fn elapsed_in_range(now_sec: int, then_sec: int) -> bool {
    -9223372036854775 <= now_sec - then_sec <= 9223372036854775
}

/// Calls `time::Timespec::new` on both instants, subtracts them and takes
/// `num_seconds` of the resulting `Duration`: the difference rounded toward
/// zero to whole seconds.
#[verifier::external_body]
fn timespec_elapsed_seconds(now_sec: i64, now_nsec: i32, then_sec: i64, then_nsec: i32) -> (r: i64)
    requires
        valid_nsec(now_nsec as int),
        valid_nsec(then_nsec as int),
        elapsed_in_range(now_sec as int, then_sec as int),
    ensures
        r == elapsed_seconds(now_sec as int, now_nsec as int, then_sec as int, then_nsec as int),
{
    (time::Timespec::new(now_sec, now_nsec) - time::Timespec::new(then_sec, then_nsec)).num_seconds()
}

/// An item of the given age is stale under `freshness_time`.
pub open spec fn is_stale(freshness_time: i64, elapsed: int) -> bool {
    freshness_time != 0 && elapsed > freshness_time
}

/// With a freshness time of 0 nothing is ever stale; an item is never
/// stale at the instant it was created; and with a positive freshness time,
/// an item more than one second older than that is stale.
pub proof fn lemma_staleness(freshness_time: i64, now_sec: int, now_nsec: int, then_sec: int, then_nsec: int)
    requires
        valid_nsec(now_nsec),
        valid_nsec(then_nsec),
    ensures
        !is_stale(0, elapsed_seconds(now_sec, now_nsec, then_sec, then_nsec)),
        !is_stale(freshness_time, elapsed_seconds(then_sec, then_nsec, then_sec, then_nsec)) || freshness_time < 0,
        freshness_time > 0 && now_sec - then_sec > freshness_time + 1
            ==> is_stale(freshness_time, elapsed_seconds(now_sec, now_nsec, then_sec, then_nsec)),
{
}

/// Whether an item created at `then` is stale at `now` under
/// `freshness_time` (0 means items never go stale).
pub fn expired(freshness_time: i64, now_sec: i64, now_nsec: i32, then_sec: i64, then_nsec: i32) -> (r: bool)
    requires
        valid_nsec(now_nsec as int),
        valid_nsec(then_nsec as int),
        elapsed_in_range(now_sec as int, then_sec as int),
    ensures
        r == is_stale(freshness_time, elapsed_seconds(now_sec as int, now_nsec as int, then_sec as int, then_nsec as int)),
{
    freshness_time != 0 && timespec_elapsed_seconds(now_sec, now_nsec, then_sec, then_nsec) > freshness_time
}

/// The format in which items carry their creation time.
pub open spec fn item_time_format() -> Seq<char> {
    "%Y-%m-%dT%H:%M:%S"@
}

/// What `time::strptime` makes of `text` under `item_time_format()`, as the
/// instant (seconds, nanoseconds) in UTC, or `None` where parsing fails.
pub uninterp spec fn parsed_utc_instant(text: Seq<char>) -> Option<(int, int)>;

/// Calls `time::strptime` with the item time format (year, month, day, hour,
/// minute, second; no zone, so the parsed time is UTC) and converts the
/// parsed time with `to_timespec`; `None` where `strptime` fails. A parsed
/// instant always has its nanoseconds in range.
#[verifier::external_body]
pub(crate) fn strptime_utc(text: &str, format: &str) -> (r: Option<(i64, i32)>)
    requires
        format@ == item_time_format(),
    ensures
        parsed_utc_instant(text@) == match r {
            Some(t) => Some((t.0 as int, t.1 as int)),
            None => None::<(int, int)>,
        },
        r matches Some(t) ==> valid_nsec(t.1 as int),
{
    match time::strptime(text, format) {
        Ok(tm) => {
            let ts = tm.to_timespec();
            Some((ts.sec, ts.nsec))
        },
        Err(_) => None,
    }
}

} // verus!
