//! The build timestamp: acquiring the current moment and formatting it.
//!
//! Time-zone and clock acquisition are external services; the library
//! only captures one formatted moment, which the caller places into the
//! build context, so generation itself stays a pure function of its
//! inputs.

use vstd::prelude::*;

use crate::Format;
use crate::err::BtResult;
use crate::err::BuildTimingError;

verus! {

#[verifier::external_type_specification]
#[verifier::external_body]
pub struct ExOffsetDateTime(time::OffsetDateTime);

/// A captured moment, either in the local time zone or in UTC.
pub enum DateTime {
    Local(time::OffsetDateTime),
    Utc(time::OffsetDateTime),
}

/// Relies on `tzdb::now::local` for the current moment in the system
/// time zone, and on `time::UtcOffset::from_whole_seconds`,
/// `time::OffsetDateTime::from_unix_timestamp` and
/// `time::OffsetDateTime::to_offset` to rebuild that moment as an
/// offset date-time. Fails where the local time zone or the current
/// time cannot be determined; the result depends on the clock, so
/// nothing more is promised of it.
#[verifier::external_body]
fn tz_local_now() -> (r: Result<time::OffsetDateTime, String>) {
    let local_time = tzdb::now::local().map_err(|e| e.to_string())?;
    let offset = time::UtcOffset::from_whole_seconds(local_time.local_time_type().ut_offset())
        .map_err(|e| e.to_string())?;
    let dt = time::OffsetDateTime::from_unix_timestamp(local_time.unix_time())
        .map_err(|e| e.to_string())?
        .to_offset(offset);
    Ok(dt)
}

/// Relies on `time::OffsetDateTime::now_utc` for the current moment in
/// UTC; the result depends on the clock, so nothing is promised of it.
#[verifier::external_body]
fn utc_now() -> (r: time::OffsetDateTime) {
    time::OffsetDateTime::now_utc()
}

/// Relies on `time::OffsetDateTime::format` with the RFC 2822
/// description: formats the moment, or hands back the empty string where
/// formatting fails.
#[verifier::external_body]
fn format_rfc2822(dt: &time::OffsetDateTime) -> (r: String) {
    dt.format(&time::format_description::well_known::Rfc2822).unwrap_or_default()
}

impl DateTime {
    /// The current moment in the local time zone, where the zone can be
    /// determined.
    pub fn local_now() -> (r: BtResult<DateTime>)
        ensures
            r matches Ok(d) ==> d is Local,
    {
        match tz_local_now() {
            Ok(dt) => Ok(DateTime::Local(dt)),
            Err(m) => Err(BuildTimingError::new(m)),
        }
    }

    /// The current moment: local where possible, UTC otherwise.
    pub fn now() -> DateTime {
        match Self::local_now() {
            Ok(d) => d,
            Err(_) => DateTime::Utc(utc_now()),
        }
    }

    /// The moment formatted per RFC 2822.
    pub fn to_rfc2822(&self) -> String {
        match self {
            DateTime::Local(dt) => format_rfc2822(dt),
            DateTime::Utc(dt) => format_rfc2822(dt),
        }
    }
}

impl Format for DateTime {
    fn human_format(&self) -> String {
        self.to_rfc2822()
    }
}

} // verus!
