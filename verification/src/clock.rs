//! The wall clock, read from `std`, and calendar formatting, from `chrono`.

use vstd::prelude::*;

verus! {

/// Reads the system clock: `std::time::SystemTime::now()` measured against
/// `UNIX_EPOCH` with `duration_since`, as whether the clock reads 1970 or later
/// and how many nanoseconds it is away from the epoch. Nothing is promised of
/// the values: they are whatever the system clock says.
#[verifier::external_body]
fn read_system_clock() -> (r: (bool, u128)) {
    match std::time::SystemTime::now().duration_since(std::time::UNIX_EPOCH) {
        Ok(d) => (true, d.as_nanos()),
        Err(e) => (false, e.duration().as_nanos()),
    }
}

/// The Unix time in whole milliseconds for a clock reading `ns` nanoseconds
/// after (or, when `after_epoch` is false, before) 1970: `None` before 1970,
/// and held at `u64::MAX` far in the future.
pub open spec fn unix_millis_of(after_epoch: bool, ns: int) -> Option<u64> {
    if !after_epoch {
        None
    } else if ns / 1_000_000 > u64::MAX {
        Some(u64::MAX)
    } else {
        Some((ns / 1_000_000) as u64)
    }
}

/// The Unix time in whole seconds for a clock reading `ns` nanoseconds after
/// (or before) 1970, rounded down as a timestamp is: the whole seconds after
/// 1970, or minus the seconds before it rounded up; held within `i64`.
pub open spec fn unix_secs_of(after_epoch: bool, ns: int) -> int {
    if after_epoch {
        if ns / 1_000_000_000 > i64::MAX {
            i64::MAX as int
        } else {
            ns / 1_000_000_000
        }
    } else {
        let up = if ns % 1_000_000_000 == 0 {
            ns / 1_000_000_000
        } else {
            ns / 1_000_000_000 + 1
        };
        if -up < i64::MIN {
            i64::MIN as int
        } else {
            -up
        }
    }
}

/// The current Unix time in milliseconds, or `None` when the clock reads a
/// time before 1970 (held at `u64::MAX` far in the future).
pub(crate) fn now_unix_millis() -> (t: Option<u64>)
    ensures
        exists|after_epoch: bool, ns: u128| t == #[trigger] unix_millis_of(after_epoch, ns as int),
{
    let (after_epoch, ns) = read_system_clock();
    let ms = ns / 1_000_000;
    let t = if !after_epoch {
        None
    } else if ms > u64::MAX as u128 {
        Some(u64::MAX)
    } else {
        Some(ms as u64)
    };
    assert(t == unix_millis_of(after_epoch, ns as int));
    t
}

/// The current Unix time in whole seconds, rounded down (so negative and
/// rounded away from zero before 1970), held within `i64`.
pub(crate) fn now_unix_secs() -> (t: i64)
    ensures
        exists|after_epoch: bool, ns: u128| t == #[trigger] unix_secs_of(after_epoch, ns as int),
{
    let (after_epoch, ns) = read_system_clock();
    let whole = ns / 1_000_000_000;
    let t: i64 = if after_epoch {
        if whole > i64::MAX as u128 {
            i64::MAX
        } else {
            whole as i64
        }
    } else {
        let up: u128 = if ns % 1_000_000_000 == 0 {
            whole
        } else {
            whole + 1
        };
        if up >= 9223372036854775808u128 {
            i64::MIN
        } else {
            -(up as i64)
        }
    };
    assert(t == unix_secs_of(after_epoch, ns as int));
    t
}

/// The text `chrono` gives for a Unix time in seconds, in UTC, with the
/// pattern `%Y-%m-%d %H:%M`, where a time that `chrono` cannot represent
/// is shown as the Unix epoch.
pub uninterp spec fn utc_minute_text(ts: i64) -> Seq<char>;

/// Formats `ts` with `chrono::DateTime::from_timestamp(ts, 0)`, falling back to
/// `DateTime::<Utc>::default()` (the epoch), as `%Y-%m-%d %H:%M`.
/// The result is a function of `ts` alone: UTC involves no time zone setting.
#[verifier::external_body]
pub(crate) fn format_utc_minute(ts: i64) -> (s: String)
    ensures
        s@ == utc_minute_text(ts),
{
    chrono::DateTime::from_timestamp(ts, 0).unwrap_or_default().format("%Y-%m-%d %H:%M").to_string()
}

/// A timestamp for display: `-` when absent, else its UTC date and minute.
pub fn format_ts(ts: Option<i64>) -> (s: String)
    ensures
        s@ == (match ts {
            Some(t) => utc_minute_text(t),
            None => "-"@,
        }),
{
    match ts {
        Some(t) => format_utc_minute(t),
        None => String::from_str("-"),
    }
}

} // verus!
