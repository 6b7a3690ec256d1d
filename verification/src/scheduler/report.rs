//! What is told of a round of checks, and of a round of updates.

use crate::ingest::refresh::Outcome;
use vstd::prelude::*;
use vstd::string::StringExecFns;

verus! {

/// What a check found of one source.
#[derive(Debug, Clone)]
pub struct UpdateCheckResult {
    pub source: String,
    pub needs_update: bool,
    pub reason: String,
    pub in_window: bool,
}

/// What a round of checks found.
#[derive(Debug, Clone)]
pub struct UpdateReport {
    pub checked_at: String,
    pub timezone: String,
    pub in_download_window: bool,
    pub time_until_window_seconds: u64,
    pub results: Vec<UpdateCheckResult>,
}

/// What a check found of one source, as plain text.
pub struct UpdateCheckResultView {
    pub source: Seq<char>,
    pub needs_update: bool,
    pub reason: Seq<char>,
    pub in_window: bool,
}

impl View for UpdateCheckResult {
    type V = UpdateCheckResultView;

    open spec fn view(&self) -> UpdateCheckResultView {
        UpdateCheckResultView {
            source: self.source@,
            needs_update: self.needs_update,
            reason: self.reason@,
            in_window: self.in_window,
        }
    }
}

/// Whether a round of updates may run: inside the window, or when it is
/// forced.
pub open spec fn run_allowed(in_window: bool, force: bool) -> bool {
    in_window || force
}

/// Whether a round of updates ran only because it was forced.
pub open spec fn run_forced(in_window: bool, force: bool) -> bool {
    force && !in_window
}

/// Whether a round of updates may run.
pub fn may_run(in_window: bool, force: bool) -> (allowed: bool)
    ensures
        allowed == run_allowed(in_window, force),
{
    in_window || force
}

/// Whether a round of updates ran only because it was forced.
pub fn was_forced(in_window: bool, force: bool) -> (forced: bool)
    ensures
        forced == run_forced(in_window, force),
{
    force && !in_window
}

/// Whether a check that ended in `outcome` says that the source needs an
/// update: it does for a source that has changed, and for one of which
/// nothing is on record.
pub open spec fn needs_update(outcome: Outcome) -> bool {
    outcome is UpdateAvailable || outcome is NotTracked
}

/// Whether `outcome` is one in which a check can end.
pub open spec fn ends_check(outcome: Outcome) -> bool {
    !(outcome is Updated) && !(outcome is IndexFailed) && !(outcome is StorageFailed)
}

/// Whether `outcome` is one in which an update can end without the source
/// being indexed anew.
pub open spec fn skips_run(outcome: Outcome) -> bool {
    !(outcome is Updated) && !(outcome is NotDue) && !(outcome is UpdateAvailable) && !(outcome
        is StorageFailed)
}

/// What a check says of a source, in words. `detail` is the complaint of
/// whatever failed where the fingerprint could not be read.
pub open spec fn check_reason(outcome: Outcome, detail: Seq<char>) -> Seq<char> {
    match outcome {
        Outcome::NotTracked => "Not tracked in metadata"@,
        Outcome::NotDue => "Not due for check yet"@,
        Outcome::NotGit => "Local source - no remote updates"@,
        Outcome::PathMissing => "Local path not found"@,
        Outcome::FetchFailed => "Failed to fetch updates"@,
        Outcome::FingerprintFailed => "Error checking: "@ + detail,
        Outcome::UpToDate => "Already up to date"@,
        Outcome::UpdateAvailable => "New commits available"@,
        _ => Seq::empty(),
    }
}

/// Why an update passed a source over, in words.
pub open spec fn skip_reason(outcome: Outcome, detail: Seq<char>) -> Seq<char> {
    match outcome {
        Outcome::NotTracked => "Not in metadata"@,
        Outcome::NotGit => "Not a GitHub source"@,
        Outcome::PathMissing => "Local path not found"@,
        Outcome::FetchFailed => "Failed to fetch"@,
        Outcome::FingerprintFailed => "Error: "@ + detail,
        Outcome::UpToDate => "Already up to date"@,
        Outcome::IndexFailed => "Failed to index: "@ + detail,
        _ => Seq::empty(),
    }
}

/// Whether a check that ended in `outcome` says that the source needs an
/// update.
pub fn check_needs_update(outcome: Outcome) -> (yes: bool)
    ensures
        yes == needs_update(outcome),
{
    match outcome {
        Outcome::UpdateAvailable => true,
        Outcome::NotTracked => true,
        _ => false,
    }
}

/// What a check says of a source, in words.
pub fn check_reason_text(outcome: Outcome, detail: &str) -> (reason: String)
    requires
        ends_check(outcome),
    ensures
        reason@ == check_reason(outcome, detail@),
{
    match outcome {
        Outcome::NotTracked => String::from_str("Not tracked in metadata"),
        Outcome::NotDue => String::from_str("Not due for check yet"),
        Outcome::NotGit => String::from_str("Local source - no remote updates"),
        Outcome::PathMissing => String::from_str("Local path not found"),
        Outcome::FetchFailed => String::from_str("Failed to fetch updates"),
        Outcome::FingerprintFailed => {
            let mut reason = String::from_str("Error checking: ");
            reason.append(detail);
            reason
        },
        Outcome::UpToDate => String::from_str("Already up to date"),
        Outcome::UpdateAvailable => String::from_str("New commits available"),
        _ => String::new(),
    }
}

/// Why an update passed a source over, in words.
pub fn skip_reason_text(outcome: Outcome, detail: &str) -> (reason: String)
    requires
        skips_run(outcome),
    ensures
        reason@ == skip_reason(outcome, detail@),
{
    match outcome {
        Outcome::NotTracked => String::from_str("Not in metadata"),
        Outcome::NotGit => String::from_str("Not a GitHub source"),
        Outcome::PathMissing => String::from_str("Local path not found"),
        Outcome::FetchFailed => String::from_str("Failed to fetch"),
        Outcome::FingerprintFailed => {
            let mut reason = String::from_str("Error: ");
            reason.append(detail);
            reason
        },
        Outcome::UpToDate => String::from_str("Already up to date"),
        Outcome::IndexFailed => {
            let mut reason = String::from_str("Failed to index: ");
            reason.append(detail);
            reason
        },
        _ => String::new(),
    }
}

impl UpdateCheckResult {
    /// What a check that ended in `outcome` says of `source`.
    pub fn of(source: &str, outcome: Outcome, detail: &str, in_window: bool) -> (result: Self)
        requires
            ends_check(outcome),
        ensures
            result@ == (UpdateCheckResultView {
                source: source@,
                needs_update: needs_update(outcome),
                reason: check_reason(outcome, detail@),
                in_window,
            }),
    {
        UpdateCheckResult {
            source: String::from_str(source),
            needs_update: check_needs_update(outcome),
            reason: check_reason_text(outcome, detail),
            in_window,
        }
    }
}

} // verus!
