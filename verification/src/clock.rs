use vstd::prelude::*;
use chrono::TimeZone;

verus! {

/// The fixed target instant's calendar fields: 2026-07-04 00:00:00 in the
/// configured zone.
pub const TARGET_YEAR: i32 = 2026;

pub const TARGET_MONTH: u32 = 7;

pub const TARGET_DAY: u32 = 4;

/// The UTC timestamp, in whole seconds, of the given calendar date and
/// wall-clock time read in the America/Montevideo zone, or `None` when the
/// zone cannot place that combination. The value depends on the arguments and
/// the compiled-in zone data alone; it is given by `zoned_epoch_seconds`.
pub uninterp spec fn zoned_of(
    year: i32,
    month: u32,
    day: u32,
    hour: u32,
    min: u32,
    sec: u32,
) -> Option<i64>;

/// Relies on chrono_tz's America/Montevideo zone with chrono's
/// TimeZone::with_ymd_and_hms, MappedLocalTime::single and
/// DateTime::timestamp: interprets the given calendar date and wall-clock
/// time in that fixed zone and returns the corresponding UTC timestamp in
/// whole seconds; `None` when the combination is invalid or ambiguous in that
/// zone. The caller treats `None` as fatal at startup.
#[verifier::external_body]
pub(crate) fn zoned_epoch_seconds(year: i32, month: u32, day: u32, hour: u32, min: u32, sec: u32) -> (r:
    Option<i64>)
    ensures
        r == zoned_of(year, month, day, hour, min, sec),
{
    chrono_tz::America::Montevideo
        .with_ymd_and_hms(year, month, day, hour, min, sec)
        .single()
        .map(|dt| dt.timestamp())
}

/// Relies on chrono's Utc::now and DateTime::timestamp: the current wall
/// clock as whole seconds since the Unix epoch. Nothing can be promised of
/// the value; like chrono's Utc::now, it panics only when the system clock is
/// before the epoch.
#[verifier::external_body]
pub fn now_epoch_seconds() -> (r: i64) {
    chrono::Utc::now().timestamp()
}

/// The UTC timestamp of the fixed target instant, or `None` when the zone
/// cannot place it (fatal at startup: no countdown can be computed).
pub fn target_epoch_seconds() -> (r: Option<i64>)
    ensures
        r == zoned_of(TARGET_YEAR, TARGET_MONTH, TARGET_DAY, 0, 0, 0),
{
    zoned_epoch_seconds(TARGET_YEAR, TARGET_MONTH, TARGET_DAY, 0, 0, 0)
}

/// Remaining whole seconds from `now` to `target`; negative once the target
/// has passed; `None` when the difference does not fit an `i64`.
pub fn remaining_seconds(target_epoch: i64, now_epoch: i64) -> (r: Option<i64>)
    ensures
        match r {
            Some(d) => d == target_epoch - now_epoch,
            None => !(i64::MIN <= target_epoch - now_epoch <= i64::MAX),
        },
{
    target_epoch.checked_sub(now_epoch)
}

} // verus!
