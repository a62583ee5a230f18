use vstd::prelude::*;
use crate::errors::AppError;

verus! {

/// `0000-01-01T00:00:00Z` in seconds since the Unix epoch: the earliest instant accepted.
pub const MIN_TIMESTAMP: i64 = -62167219200;

/// `9999-12-31T23:59:59Z` in seconds since the Unix epoch: the latest instant accepted.
pub const MAX_TIMESTAMP: i64 = 253402300799;

/// The length of a UTC day in seconds.
pub const SECONDS_PER_DAY: i64 = 86400;

/// An instant that an ISO-8601 date with a four-digit year can write.
pub open spec fn valid_timestamp(t: i64) -> bool {
    MIN_TIMESTAMP <= t <= MAX_TIMESTAMP
}

/// An optional instant that is absent or valid.
pub open spec fn valid_opt_timestamp(t: Option<i64>) -> bool {
    match t {
        Some(x) => valid_timestamp(x),
        None => true,
    }
}

/// The first second of the UTC day that holds `t`.
pub open spec fn midnight_of(t: int) -> int {
    t - t % 86400
}

/// The last second of the UTC day that holds `t`.
pub open spec fn last_second_of(t: int) -> int {
    midnight_of(t) + 86399
}

#[verifier::external_type_specification]
#[verifier::external_body]
pub struct ExSystemTime(std::time::SystemTime);

/// Relies on std's `SystemTime::now`, which reads the system clock: nothing is
/// known of the value.
#[verifier::external_body]
fn system_now() -> (r: std::time::SystemTime) {
    std::time::SystemTime::now()
}

/// Relies on std's `SystemTime::duration_since(UNIX_EPOCH)`: the whole seconds
/// from the epoch to `t`, `None` where `t` lies before the epoch. It reports that
/// case instead of panicking; nothing more is known of the value.
#[verifier::external_body]
fn seconds_since_epoch(t: &std::time::SystemTime) -> (r: Option<u64>) {
    match t.duration_since(std::time::UNIX_EPOCH) {
        Ok(d) => Some(d.as_secs()),
        Err(_) => None,
    }
}

/// The system clock in whole seconds since the Unix epoch; `None` where it
/// reads before the epoch or past the range of `i64`.
fn now_seconds() -> (r: Option<i64>)
    ensures
        r matches Some(n) ==> n >= 0,
{
    let t = system_now();
    match seconds_since_epoch(&t) {
        Some(s) => if s <= i64::MAX as u64 {
            Some(s as i64)
        } else {
            None
        },
        None => None,
    }
}

/// Relies on chrono's `DateTime::from_timestamp`, `date_naive`, `and_time` and
/// `timestamp`: the instant `secs` is split into a day count `secs.div_euclid(86400)`
/// and the seconds of that day, and midnight of that day is rebuilt. It is `None`
/// only outside chrono's range of years, which holds every valid timestamp.
#[verifier::external_body]
fn utc_midnight(secs: i64) -> (r: Option<i64>)
    ensures
        r matches Some(m) ==> m == midnight_of(secs as int),
        valid_timestamp(secs) ==> r is Some,
{
    match chrono::DateTime::from_timestamp(secs, 0) {
        Some(t) => Some(t.date_naive().and_time(chrono::NaiveTime::MIN).and_utc().timestamp()),
        None => None,
    }
}

/// The first second of the UTC day that holds `now`.
pub fn day_start(now: i64) -> (r: i64)
    requires
        valid_timestamp(now),
    ensures
        r == midnight_of(now as int),
        valid_timestamp(r),
{
    match utc_midnight(now) {
        Some(m) => m,
        None => now,
    }
}

/// The last second of the UTC day that holds `now`.
pub fn day_end(now: i64) -> (r: i64)
    requires
        valid_timestamp(now),
    ensures
        r == last_second_of(now as int),
        valid_timestamp(r),
{
    day_start(now) + 86399
}

/// A time window as a caller gives it; a bound left out is taken from the
/// current UTC day.
#[derive(Debug, Clone, Copy, PartialEq, Eq, Structural)]
pub struct RangeParams {
    pub start: Option<i64>,
    pub end: Option<i64>,
}

impl RangeParams {
    /// The window's lower bound, where the clock reads `now`: the given bound,
    /// else midnight of `now`'s UTC day. `InternalServer` where the bound is
    /// left out and `now` is not a valid timestamp.
    pub fn get_start_at(&self, now: i64) -> (r: Result<i64, AppError>)
        ensures
            r == match self.start {
                Some(s) => Ok::<i64, AppError>(s),
                None => if valid_timestamp(now) {
                    Ok::<i64, AppError>(midnight_of(now as int) as i64)
                } else {
                    Err::<i64, AppError>(AppError::InternalServer)
                },
            },
    {
        match self.start {
            Some(s) => Ok(s),
            None => if MIN_TIMESTAMP <= now && now <= MAX_TIMESTAMP {
                Ok(day_start(now))
            } else {
                Err(AppError::InternalServer)
            },
        }
    }

    /// The window's upper bound, where the clock reads `now`: the given bound,
    /// else the last second of `now`'s UTC day. `InternalServer` where the bound
    /// is left out and `now` is not a valid timestamp.
    pub fn get_end_at(&self, now: i64) -> (r: Result<i64, AppError>)
        ensures
            r == match self.end {
                Some(e) => Ok::<i64, AppError>(e),
                None => if valid_timestamp(now) {
                    Ok::<i64, AppError>(last_second_of(now as int) as i64)
                } else {
                    Err::<i64, AppError>(AppError::InternalServer)
                },
            },
    {
        match self.end {
            Some(e) => Ok(e),
            None => if MIN_TIMESTAMP <= now && now <= MAX_TIMESTAMP {
                Ok(day_end(now))
            } else {
                Err(AppError::InternalServer)
            },
        }
    }

    /// The window's lower bound by the system clock, as `get_start_at` gives it
    /// for the clock's reading. The clock is read only where the bound is left
    /// out; a clock that cannot be read is `InternalServer`.
    pub fn get_start(&self) -> (r: Result<i64, AppError>)
        ensures
            self.start matches Some(s) ==> r == Ok::<i64, AppError>(s),
            self.start is None ==> match r {
                Ok(m) => m % 86400 == 0 && valid_timestamp(m),
                Err(e) => e == AppError::InternalServer,
            },
    {
        match self.start {
            Some(s) => Ok(s),
            None => match now_seconds() {
                Some(now) => self.get_start_at(now),
                None => Err(AppError::InternalServer),
            },
        }
    }

    /// The window's upper bound by the system clock, as `get_end_at` gives it
    /// for the clock's reading. The clock is read only where the bound is left
    /// out; a clock that cannot be read is `InternalServer`.
    pub fn get_end(&self) -> (r: Result<i64, AppError>)
        ensures
            self.end matches Some(e) ==> r == Ok::<i64, AppError>(e),
            self.end is None ==> match r {
                Ok(m) => m % 86400 == 86399 && valid_timestamp(m),
                Err(e) => e == AppError::InternalServer,
            },
    {
        match self.end {
            Some(e) => Ok(e),
            None => match now_seconds() {
                Some(now) => self.get_end_at(now),
                None => Err(AppError::InternalServer),
            },
        }
    }
}

} // verus!
