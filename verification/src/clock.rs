//! The present date, read from the system clock.

use vstd::prelude::*;
use core::time::Duration;
use std::time::{SystemTime, SystemTimeError};
use crate::datetime::{opt_model, DateTime};
use crate::model::date_at;

verus! {

#[verifier::external_type_specification]
#[verifier::external_body]
pub struct ExSystemTime(std::time::SystemTime);

#[verifier::external_type_specification]
#[verifier::external_body]
pub struct ExSystemTimeError(std::time::SystemTimeError);

/// `std::time::SystemTime::now`: the present instant by the system clock.
/// Nothing is stated of it: it is whatever the clock reads.
pub assume_specification[ std::time::SystemTime::now ]() -> std::time::SystemTime;

/// `SystemTime::duration_since`: the time elapsed from `earlier` to `t`, or
/// an error where `earlier` is later than `t`. Nothing is stated of the
/// result, since both instants are opaque here.
pub assume_specification[ std::time::SystemTime::duration_since ](
    t: &std::time::SystemTime,
    earlier: std::time::SystemTime,
) -> Result<core::time::Duration, std::time::SystemTimeError>;

/// `Duration::as_secs`: the whole seconds of a duration. Nothing is stated
/// of the value, since a `Duration` is opaque here.
pub assume_specification[ core::time::Duration::as_secs ](d: &core::time::Duration) -> u64;

/// `std::time::UNIX_EPOCH`: the instant 1970-01-01 00:00:00 UTC. Nothing is
/// stated of it, since a `SystemTime` is opaque here.
#[verifier::external_body]
fn unix_epoch() -> SystemTime {
    std::time::UNIX_EPOCH
}

/// `since` is what `SystemTime::duration_since` gave when measuring, from
/// the instant that `unix_epoch` gave (1970-01-01 00:00:00 UTC), an instant
/// that `SystemTime::now` gave: a reading of the system clock.
pub closed spec fn reads_clock(since: Result<Duration, SystemTimeError>) -> bool {
    exists|present: SystemTime, epoch: SystemTime|
        {
            &&& call_ensures(SystemTime::now, (), present)
            &&& call_ensures(unix_epoch, (), epoch)
            &&& #[trigger] call_ensures(SystemTime::duration_since, (&present, epoch), since)
        }
}

/// `secs` is what `Duration::as_secs` gave for `elapsed`.
pub open spec fn whole_seconds(elapsed: Duration, secs: u64) -> bool {
    call_ensures(Duration::as_secs, (&elapsed,), secs)
}

/// The date that a clock reading names: the date `secs` seconds after
/// 1970-01-01 00:00:00, where the reading is `secs` whole seconds that fit in
/// an `i64`; nothing where the clock reads before 1970 or further than that.
pub open spec fn date_of_reading(since: Result<Duration, SystemTimeError>, r: Option<DateTime>) -> bool {
    match since {
        Ok(elapsed) => exists|secs: u64|
            #[trigger] whole_seconds(elapsed, secs) && opt_model(r) == (if secs <= i64::MAX {
                date_at(secs as int)
            } else {
                None
            }) && (r is Some <==> secs <= i64::MAX),
        Err(_) => r is None,
    }
}

impl DateTime {
    /// The date and time `secs` seconds after 1970-01-01 00:00:00, as the
    /// clock reports them; `None` where `secs` does not fit in an `i64`.
    pub fn from_unix_secs(secs: u64) -> (r: Option<Self>)
        ensures
            opt_model(r) == (if secs <= i64::MAX {
                date_at(secs as int)
            } else {
                None
            }),
            r is Some <==> secs <= i64::MAX,
    {
        if secs <= i64::MAX as u64 {
            Self::from_anchor(secs as i64)
        } else {
            None
        }
    }

    /// The present date and time (UTC) by the system clock, or `None` where
    /// the clock reads a time before 1970 or too far ahead for an `i64`.
    pub fn now() -> (r: Option<Self>)
        ensures
            r matches Some(d) ==> d@.valid() && d@.anchor() >= 0,
            exists|since: Result<Duration, SystemTimeError>|
                #[trigger] reads_clock(since) && date_of_reading(since, r),
    {
        let present: SystemTime = SystemTime::now();
        let epoch: SystemTime = unix_epoch();
        let since: Result<Duration, SystemTimeError> = present.duration_since(epoch);
        proof {
            assert(reads_clock(since));
        }
        match since {
            Ok(elapsed) => {
                let secs: u64 = elapsed.as_secs();
                let r = Self::from_unix_secs(secs);
                proof {
                    if r is Some {
                        assert(date_at(secs as int) is Some);
                    }
                    assert(whole_seconds(elapsed, secs));
                    assert(date_of_reading(since, r));
                }
                r
            },
            Err(_) => {
                assert(date_of_reading(since, None));
                None
            },
        }
    }
}

} // verus!
