//! When a source is due for a check, whether it has changed, and during
//! which hours of the day a refresh may run.

pub mod metadata;
pub mod report;

pub use metadata::{MetadataStore, SourceMetadata};
pub use report::{UpdateCheckResult, UpdateReport};

use crate::system::{
    find_zone, hour_in_zone, hour_shown, hours_between, length_of_seconds, moment_read,
    moment_written, read_rfc3339, rfc3339_readable, utc_now, whole_hours, whole_seconds,
    write_rfc3339, zone_known, zone_named,
};
use crate::scheduler::metadata::{checked, refreshed, SourceMetadataView};
use chrono::NaiveDateTime;
use chrono_tz::Tz;
use std::path::PathBuf;
use std::time::Duration;
use vstd::prelude::*;
use vstd::string::StringExecFns;

verus! {

// ---------------------------------------------------------------------------
// The daily window
// ---------------------------------------------------------------------------

/// Whether `hour` lies in the daily window that opens at `start` and closes
/// as `end` begins. A window with `start > end` runs across midnight.
pub open spec fn in_window(start: u8, end: u8, hour: u8) -> bool {
    if start > end {
        hour >= start || hour < end
    } else {
        start <= hour && hour < end
    }
}

/// The whole hours from `hour` until the window opens: none inside the
/// window, else the hours until the clock next shows `start`.
pub open spec fn hours_until_window(start: u8, end: u8, hour: u8) -> nat {
    if in_window(start, end, hour) {
        0
    } else if hour < start {
        (start - hour) as nat
    } else {
        (24 - hour + start) as nat
    }
}

/// Whether a check is due for a source last checked `elapsed` whole hours
/// ago, where checks are `interval` hours apart. One is always due for a
/// source whose last check is not known.
pub open spec fn check_due(elapsed: Option<i64>, interval: u64) -> bool {
    match elapsed {
        Some(hours) => hours >= interval,
        None => true,
    }
}

/// The whole hours from the last check on record to `now`, if the time of
/// that check is on record and can be read.
pub open spec fn elapsed_hours(last_check: Option<Seq<char>>, now: NaiveDateTime) -> Option<i64> {
    match last_check {
        Some(text) => if rfc3339_readable(text) {
            Some(whole_hours(now, moment_read(text)))
        } else {
            None
        },
        None => None,
    }
}

/// Whether `hour` lies in the window from `start` to `end`.
pub fn hour_in_window(start: u8, end: u8, hour: u8) -> (inside: bool)
    ensures
        inside == in_window(start, end, hour),
{
    if start > end {
        hour >= start || hour < end
    } else {
        hour >= start && hour < end
    }
}

/// The time from `hour` until the window opens, in seconds. Minutes are not
/// looked at: the answer is a whole number of hours.
pub fn seconds_until_window(start: u8, end: u8, hour: u8) -> (seconds: u64)
    requires
        hour < 24,
    ensures
        seconds == 3600 * hours_until_window(start, end, hour),
{
    let hours: u64 = if hour_in_window(start, end, hour) {
        0
    } else if hour < start {
        (start - hour) as u64
    } else {
        (24 - hour) as u64 + start as u64
    };
    hours * 3600
}

/// Whether a check is due `elapsed` whole hours after the last one.
pub fn check_is_due(elapsed: Option<i64>, interval: u64) -> (due: bool)
    ensures
        due == check_due(elapsed, interval),
{
    match elapsed {
        Some(hours) => hours >= 0 && hours as u64 >= interval,
        None => true,
    }
}

/// The hour that the clock shows `k` hours after it showed `hour`.
pub open spec fn hour_after(hour: u8, k: int) -> int {
    (hour + k) % 24
}

/// Outside the window, the time until it opens is the first of the coming
/// hours at which the clock shows `start`, at most a day away.
pub proof fn law_window_opens(start: u8, end: u8, hour: u8)
    requires
        start < 24,
        hour < 24,
        !in_window(start, end, hour),
    ensures
        0 < hours_until_window(start, end, hour) <= 24,
        hour_after(hour, hours_until_window(start, end, hour) as int) == start,
        forall|k: int|
            0 < k < hours_until_window(start, end, hour) ==> #[trigger] hour_after(hour, k)
                != start,
        start != end ==> in_window(start, end, start),
{
}

// ---------------------------------------------------------------------------
// Names of sources and fresh records
// ---------------------------------------------------------------------------

/// The name under which a repository of GitHub is indexed.
pub open spec fn github_source(owner: Seq<char>, repo: Seq<char>) -> Seq<char> {
    "github:"@ + owner + "/"@ + repo
}

/// The name under which a local directory is indexed.
pub open spec fn local_source(path: Seq<char>) -> Seq<char> {
    "local:"@ + path
}

/// The record of a repository that was indexed at `now`, in the state that
/// `commit_hash` names.
pub open spec fn github_record(
    owner: Seq<char>,
    repo: Seq<char>,
    branch: Seq<char>,
    local_path: Seq<char>,
    commit_hash: Seq<char>,
    now: Seq<char>,
) -> SourceMetadataView {
    SourceMetadataView {
        source: github_source(owner, repo),
        source_type: "github"@,
        last_commit_hash: Some(commit_hash),
        last_check: Some(now),
        last_update: Some(now),
        owner: Some(owner),
        repo: Some(repo),
        branch: Some(branch),
        local_path: Some(local_path),
    }
}

/// The record of a local directory that was indexed at `now`.
pub open spec fn local_record(path: Seq<char>, now: Seq<char>) -> SourceMetadataView {
    SourceMetadataView {
        source: local_source(path),
        source_type: "local"@,
        last_commit_hash: None,
        last_check: Some(now),
        last_update: Some(now),
        owner: None,
        repo: None,
        branch: None,
        local_path: Some(path),
    }
}

/// The name under which a repository of GitHub is indexed.
pub fn github_source_name(owner: &str, repo: &str) -> (name: String)
    ensures
        name@ == github_source(owner@, repo@),
{
    let mut name = String::from_str("github:");
    name.append(owner);
    name.append("/");
    name.append(repo);
    name
}

/// The name under which a local directory is indexed.
pub fn local_source_name(path: &str) -> (name: String)
    ensures
        name@ == local_source(path@),
{
    let mut name = String::from_str("local:");
    name.append(path);
    name
}

/// The record of a repository indexed at `now`.
pub fn github_metadata(
    owner: &str,
    repo: &str,
    branch: &str,
    local_path: &str,
    commit_hash: String,
    now: String,
) -> (record: SourceMetadata)
    ensures
        record@ == github_record(owner@, repo@, branch@, local_path@, commit_hash@, now@),
{
    SourceMetadata {
        source: github_source_name(owner, repo),
        source_type: String::from_str("github"),
        last_commit_hash: Some(commit_hash),
        last_check: Some(now.clone()),
        last_update: Some(now),
        owner: Some(String::from_str(owner)),
        repo: Some(String::from_str(repo)),
        branch: Some(String::from_str(branch)),
        local_path: Some(String::from_str(local_path)),
    }
}

/// The record of a local directory indexed at `now`.
pub fn local_metadata(path: &str, now: String) -> (record: SourceMetadata)
    ensures
        record@ == local_record(path@, now@),
{
    SourceMetadata {
        source: local_source_name(path),
        source_type: String::from_str("local"),
        last_commit_hash: None,
        last_check: Some(now.clone()),
        last_update: Some(now),
        owner: None,
        repo: None,
        branch: None,
        local_path: Some(String::from_str(path)),
    }
}

// ---------------------------------------------------------------------------
// The scheduler
// ---------------------------------------------------------------------------

/// Why a scheduler could not be made.
#[derive(Debug)]
pub enum SchedulerError {
    /// No time zone has the name that was given.
    InvalidTimezone(String),
}

impl SchedulerError {
    /// The error in words.
    pub fn message(&self) -> (text: String)
        ensures
            match self {
                SchedulerError::InvalidTimezone(name) => text@ == "Invalid timezone: "@ + name@,
            },
    {
        match self {
            SchedulerError::InvalidTimezone(name) => {
                let mut text = String::from_str("Invalid timezone: ");
                text.append(name.as_str());
                text
            },
        }
    }
}

/// The policy by which sources are checked and refreshed: how far apart
/// checks are, and the hours of the day, in one time zone, during which a
/// refresh may run.
pub struct Scheduler {
    metadata_path: PathBuf,
    check_interval_hours: u64,
    window_start: u8,
    window_end: u8,
    timezone: Tz,
}

impl Scheduler {
    /// The hours between two checks of a source.
    pub closed spec fn interval(&self) -> u64 {
        self.check_interval_hours
    }

    /// The hour at which the window opens.
    pub closed spec fn start(&self) -> u8 {
        self.window_start
    }

    /// The hour at whose beginning the window closes.
    pub closed spec fn end(&self) -> u8 {
        self.window_end
    }

    /// Where the records of the sources are kept.
    pub closed spec fn path(&self) -> PathBuf {
        self.metadata_path
    }

    /// The zone in which the hours of the window are read.
    pub closed spec fn zone(&self) -> Tz {
        self.timezone
    }

    /// A scheduler for the zone named `timezone`; an error if no zone has
    /// that name.
    pub fn new(
        metadata_path: PathBuf,
        check_interval_hours: u64,
        window_start: u8,
        window_end: u8,
        timezone: &str,
    ) -> (made: Result<Self, SchedulerError>)
        ensures
            made is Ok <==> zone_known(timezone@),
            made matches Ok(scheduler) ==> scheduler.interval() == check_interval_hours
                && scheduler.start() == window_start && scheduler.end() == window_end
                && scheduler.path() == metadata_path && scheduler.zone() == zone_named(
                timezone@,
            ),
            made matches Err(SchedulerError::InvalidTimezone(name)) ==> name@ == timezone@,
    {
        match find_zone(timezone) {
            Some(zone) => Ok(
                Scheduler {
                    metadata_path,
                    check_interval_hours,
                    window_start,
                    window_end,
                    timezone: zone,
                },
            ),
            None => Err(SchedulerError::InvalidTimezone(String::from_str(timezone))),
        }
    }

    /// Where the records of the sources are kept.
    pub fn metadata_path(&self) -> (path: &PathBuf)
        ensures
            *path == self.path(),
    {
        &self.metadata_path
    }

    /// The hours between two checks of a source.
    pub fn check_interval_hours(&self) -> (hours: u64)
        ensures
            hours == self.interval(),
    {
        self.check_interval_hours
    }

    /// The hour at which the window opens.
    pub fn window_start(&self) -> (hour: u8)
        ensures
            hour == self.start(),
    {
        self.window_start
    }

    /// The hour at whose beginning the window closes.
    pub fn window_end(&self) -> (hour: u8)
        ensures
            hour == self.end(),
    {
        self.window_end
    }

    /// Whether `now` lies in the window: whether the hour that a clock in
    /// the scheduler's zone shows at `now` does.
    pub fn is_in_window_at(&self, now: &NaiveDateTime) -> (inside: bool)
        ensures
            inside == in_window(self.start(), self.end(), hour_shown(*now, self.zone())),
    {
        let hour = hour_in_zone(now, &self.timezone);
        hour_in_window(self.window_start, self.window_end, hour)
    }

    /// Whether the window is open now.
    pub fn is_in_download_window(&self) -> (inside: bool)
        ensures
            exists|hour: u8| hour < 24 && inside == in_window(self.start(), self.end(), hour),
    {
        let now = utc_now();
        let hour = hour_in_zone(&now, &self.timezone);
        let inside = hour_in_window(self.window_start, self.window_end, hour);
        assert(inside == in_window(self.start(), self.end(), hour));
        inside
    }

    /// The time from `now` until the window opens, by the hour that a clock
    /// in the scheduler's zone shows at `now`: a whole number of hours.
    pub fn time_until_window_at(&self, now: &NaiveDateTime) -> (wait: Duration)
        ensures
            whole_seconds(wait) == 3600 * hours_until_window(
                self.start(),
                self.end(),
                hour_shown(*now, self.zone()),
            ),
    {
        let hour = hour_in_zone(now, &self.timezone);
        length_of_seconds(seconds_until_window(self.window_start, self.window_end, hour))
    }

    /// The time from now until the window opens.
    pub fn time_until_window(&self) -> (wait: Duration)
        ensures
            exists|hour: u8|
                hour < 24 && whole_seconds(wait) == 3600 * hours_until_window(
                    self.start(),
                    self.end(),
                    hour,
                ),
    {
        let now = utc_now();
        let hour = hour_in_zone(&now, &self.timezone);
        let seconds = seconds_until_window(self.window_start, self.window_end, hour);
        assert(seconds == 3600 * hours_until_window(self.start(), self.end(), hour));
        length_of_seconds(seconds)
    }

    /// Whether a check of the source is due at `now`: it is if the time of
    /// the last check is not on record or cannot be read, or if the whole
    /// hours since then are no fewer than the interval.
    pub fn needs_check_at(&self, metadata: &SourceMetadata, now: &NaiveDateTime) -> (due: bool)
        ensures
            due == check_due(elapsed_hours(metadata@.last_check, *now), self.interval()),
    {
        let elapsed = match &metadata.last_check {
            Some(text) => match read_rfc3339(text.as_str()) {
                Some(then) => Some(hours_between(now, &then)),
                None => None,
            },
            None => None,
        };
        check_is_due(elapsed, self.check_interval_hours)
    }

    /// Whether a check of the source is due now.
    pub fn needs_check(&self, metadata: &SourceMetadata) -> (due: bool)
        ensures
            exists|now: NaiveDateTime|
                due == check_due(elapsed_hours(metadata@.last_check, now), self.interval()),
    {
        let now = utc_now();
        let due = self.needs_check_at(metadata, &now);
        assert(due == check_due(elapsed_hours(metadata@.last_check, now), self.interval()));
        due
    }

    /// Whether the source has changed since its last refresh, where
    /// `current_hash` names the state it is in now.
    pub fn has_updates(&self, metadata: &SourceMetadata, current_hash: &str) -> (changed: bool)
        ensures
            changed == (metadata@.last_commit_hash != Some(current_hash@)),
    {
        metadata.has_changed(current_hash)
    }

    /// The record of a repository that has just been indexed in the state
    /// that `commit_hash` names.
    pub fn create_github_metadata(
        &self,
        owner: &str,
        repo: &str,
        branch: &str,
        local_path: &str,
        commit_hash: String,
    ) -> (record: SourceMetadata)
        ensures
            exists|now: NaiveDateTime|
                record@ == github_record(
                    owner@,
                    repo@,
                    branch@,
                    local_path@,
                    commit_hash@,
                    #[trigger] moment_written(now),
                ),
    {
        let now = write_rfc3339(&utc_now());
        github_metadata(owner, repo, branch, local_path, commit_hash, now)
    }

    /// The record of a local directory that has just been indexed.
    pub fn create_local_metadata(&self, path: &str) -> (record: SourceMetadata)
        ensures
            exists|now: NaiveDateTime| record@ == local_record(path@, #[trigger] moment_written(now)),
    {
        let now = write_rfc3339(&utc_now());
        local_metadata(path, now)
    }

    /// Notes in `metadata` that the source has just been checked.
    pub fn update_check_time(&self, metadata: &mut SourceMetadata)
        ensures
            exists|now: NaiveDateTime|
                final(metadata)@ == checked(old(metadata)@, #[trigger] moment_written(now)),
    {
        let now = write_rfc3339(&utc_now());
        metadata.record_check(now);
    }

    /// Notes in `metadata` that the source has just been indexed anew, in
    /// the state that `commit_hash` names.
    pub fn update_after_refresh(&self, metadata: &mut SourceMetadata, commit_hash: String)
        ensures
            exists|now: NaiveDateTime|
                final(metadata)@ == refreshed(
                    old(metadata)@,
                    commit_hash@,
                    #[trigger] moment_written(now),
                ),
    {
        let now = write_rfc3339(&utc_now());
        metadata.record_refresh(commit_hash, now);
    }
}

} // verus!
