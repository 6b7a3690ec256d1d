//! The clock, the calendar, fresh identifiers, paths and lengths of time:
//! what the library takes from `chrono`, `chrono_tz`, `uuid`, `std::path`
//! and `std::time`. Nothing in this file is proved; each item says what it
//! claims of the function it calls.

use chrono::{DateTime, NaiveDateTime, TimeZone, Timelike, Utc};
use chrono_tz::Tz;
use std::path::PathBuf;
use std::time::Duration;
use uuid::Uuid;
use vstd::prelude::*;

verus! {

/// A path in the file system. The library carries paths; it never looks at
/// what they name.
#[verifier::external_type_specification]
#[verifier::external_body]
pub struct ExPathBuf(PathBuf);

/// A time zone of the IANA database, as `chrono_tz` holds it.
#[verifier::external_type_specification]
#[verifier::external_body]
pub struct ExTz(Tz);

/// A date and time of day without a zone. The library reads every value of
/// this type as universal time.
#[verifier::external_type_specification]
#[verifier::external_body]
pub struct ExNaiveDateTime(NaiveDateTime);

/// Whether `name` is the name of a zone that `chrono_tz` knows.
pub uninterp spec fn zone_known(name: Seq<char>) -> bool;

/// The zone that `chrono_tz` knows by `name`.
pub uninterp spec fn zone_named(name: Seq<char>) -> Tz;

/// Whether `s` is a date and time that `chrono` reads as RFC 3339.
pub uninterp spec fn rfc3339_readable(s: Seq<char>) -> bool;

/// The moment, in universal time, that `chrono` reads in `s`.
pub uninterp spec fn moment_read(s: Seq<char>) -> NaiveDateTime;

/// The hour of the day, from 0 to 23, that a clock in `zone` shows at the
/// moment `now` of universal time.
pub uninterp spec fn hour_shown(now: NaiveDateTime, zone: Tz) -> u8;

/// The whole hours from `then` to `now`, rounded towards zero.
pub uninterp spec fn whole_hours(now: NaiveDateTime, then: NaiveDateTime) -> i64;

/// `now` written as RFC 3339, in universal time.
pub uninterp spec fn moment_written(now: NaiveDateTime) -> Seq<char>;

/// The whole seconds that a length of time holds.
pub uninterp spec fn whole_seconds(length: Duration) -> u64;

/// `Tz::from_str`: looks `name` up among the zones compiled into
/// `chrono_tz`. Whether it is found depends on the name alone.
#[verifier::external_body]
pub(crate) fn find_zone(name: &str) -> (zone: Option<Tz>)
    ensures
        zone is Some <==> zone_known(name@),
        zone matches Some(z) ==> z == zone_named(name@),
{
    name.parse::<Tz>().ok()
}

/// `Utc::now`: the moment of the call in universal time, by the system's
/// clock. It panics if that clock stands before 1970.
#[verifier::external_body]
pub(crate) fn utc_now() -> NaiveDateTime {
    Utc::now().naive_utc()
}

/// `TimeZone::from_utc_datetime` and `Timelike::hour`: the hour of the day
/// that a clock in `zone` shows at `now`, from 0 to 23. It depends on the
/// moment and the zone alone.
#[verifier::external_body]
pub(crate) fn hour_in_zone(now: &NaiveDateTime, zone: &Tz) -> (hour: u8)
    ensures
        hour < 24,
        hour == hour_shown(*now, *zone),
{
    zone.from_utc_datetime(now).hour() as u8
}

/// `DateTime::parse_from_rfc3339`: reads a date and time with its offset
/// and gives the moment in universal time. Whether the text can be read
/// depends on the text alone, and so does the moment.
#[verifier::external_body]
pub(crate) fn read_rfc3339(s: &str) -> (moment: Option<NaiveDateTime>)
    ensures
        moment is Some <==> rfc3339_readable(s@),
        moment matches Some(m) ==> m == moment_read(s@),
{
    match DateTime::parse_from_rfc3339(s) {
        Ok(moment) => Some(moment.naive_utc()),
        Err(_) => None,
    }
}

/// `NaiveDateTime::signed_duration_since` and `TimeDelta::num_hours`: the
/// whole hours from `then` to `now`, rounded towards zero; negative where
/// `then` is the later one. They depend on the two moments alone.
#[verifier::external_body]
pub(crate) fn hours_between(now: &NaiveDateTime, then: &NaiveDateTime) -> (hours: i64)
    ensures
        hours == whole_hours(*now, *then),
{
    now.signed_duration_since(*then).num_hours()
}

/// `DateTime::to_rfc3339`: `now`, as universal time, written as RFC 3339.
/// The text depends on the moment alone.
#[verifier::external_body]
pub(crate) fn write_rfc3339(now: &NaiveDateTime) -> (text: String)
    ensures
        text@ == moment_written(*now),
{
    now.and_utc().to_rfc3339()
}

/// `Duration::as_secs`: the whole seconds that a length of time holds.
pub assume_specification[ Duration::as_secs ](length: &Duration) -> (seconds: u64)
    ensures
        seconds == whole_seconds(*length),
;

/// `Duration::from_secs`: the length of time of so many whole seconds.
#[verifier::external_body]
pub(crate) fn length_of_seconds(seconds: u64) -> (length: Duration)
    ensures
        whole_seconds(length) == seconds,
{
    Duration::from_secs(seconds)
}

/// `Uuid::new_v4`, written out: a random identifier. Two calls may give the
/// same text; that they do not is a matter of chance, not of proof. It
/// panics if the system has no random bytes to give.
#[verifier::external_body]
pub(crate) fn fresh_id() -> String {
    Uuid::new_v4().to_string()
}

} // verus!
