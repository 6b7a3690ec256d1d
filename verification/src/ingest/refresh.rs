//! Bringing one source up to date, step by step.
//!
//! The library decides; the caller acts. A `SourceRefresh` is told what
//! happened (`RefreshEvent`) and answers with what to do next
//! (`RefreshAction`), until it answers `Finish`. Looking at the disk,
//! fetching, reading the fingerprint, deleting and indexing are the
//! caller's work; in which order they happen, whether they happen at all,
//! and what becomes of a source where one of them fails, is settled here.

use crate::system::{utc_now, write_rfc3339};
use crate::scheduler::metadata::{checked, refreshed, SourceMetadata, SourceMetadataView};
use crate::scheduler::Scheduler;
use vstd::prelude::*;

verus! {

/// What a source is looked at for.
#[derive(Debug, Clone, Copy, PartialEq, Eq, Structural)]
pub enum Purpose {
    /// To report whether it needs an update.
    Check,
    /// To bring it up to date.
    Run,
}

/// How far the work on a source has come.
#[derive(Debug, Clone, Copy, PartialEq, Eq, Structural)]
pub enum Phase {
    Start,
    PathCheck,
    Syncing,
    Fingerprinting,
    Deleting,
    Reindexing,
    Done,
}

/// What the caller is asked to do next.
#[derive(Debug, Clone, Copy, PartialEq, Eq, Structural)]
pub enum RefreshAction {
    /// Look whether the local clone is there.
    CheckPath,
    /// Fetch the branch and reset the clone to it.
    Sync,
    /// Read the fingerprint of the clone as it now is.
    ReadFingerprint,
    /// Remove from the index all that was indexed of the source.
    DeleteIndexed,
    /// Load the source anew and index its chunks.
    Reindex,
    /// Nothing more: the work on the source has ended.
    Finish(Outcome),
}

/// How the work on a source ended.
#[derive(Debug, Clone, Copy, PartialEq, Eq, Structural)]
pub enum Outcome {
    /// Nothing is on record of the source.
    NotTracked,
    /// The last check is too recent for another.
    NotDue,
    /// The record does not say where a repository lives.
    NotGit,
    /// The local clone is gone.
    PathMissing,
    /// Fetching failed.
    FetchFailed,
    /// The fingerprint could not be read.
    FingerprintFailed,
    /// The source is as it was at its last refresh.
    UpToDate,
    /// The source has changed; it was not touched.
    UpdateAvailable,
    /// The source was indexed anew, in so many chunks.
    Updated(usize),
    /// The source could not be indexed anew, or not all of it. Its record
    /// stays as it was, so that the next update takes it up again.
    IndexFailed,
    /// The index could not be written. Nothing more can be done in this
    /// round.
    StorageFailed,
}

/// What went wrong while the index was being replaced.
#[derive(Debug, Clone, Copy, PartialEq, Eq, Structural)]
pub enum Failure {
    /// The source could not be loaded, or a file of it could not be made
    /// ready for the index.
    Indexing,
    /// The index could not be written.
    Storage,
}

/// What the caller reports.
#[derive(Debug)]
pub enum RefreshEvent {
    /// The work may start.
    Begin,
    /// Whether the local clone is there.
    PathChecked(bool),
    /// Whether fetching succeeded.
    Synced(bool),
    /// The fingerprint of the clone, if it could be read.
    Fingerprint(Option<String>),
    /// The indexed content of the source has been removed.
    Deleted,
    /// The source has been indexed anew, in so many chunks.
    Reindexed(usize),
    /// Deleting or indexing failed.
    Failed(Failure),
}

/// A report as plain text.
pub enum EventView {
    Begin,
    PathChecked(bool),
    Synced(bool),
    Fingerprint(Option<Seq<char>>),
    Deleted,
    Reindexed(usize),
    Failed(Failure),
}

impl View for RefreshEvent {
    type V = EventView;

    open spec fn view(&self) -> EventView {
        match self {
            RefreshEvent::Begin => EventView::Begin,
            RefreshEvent::PathChecked(there) => EventView::PathChecked(*there),
            RefreshEvent::Synced(ok) => EventView::Synced(*ok),
            RefreshEvent::Fingerprint(Some(f)) => EventView::Fingerprint(Some(f@)),
            RefreshEvent::Fingerprint(None) => EventView::Fingerprint(None),
            RefreshEvent::Deleted => EventView::Deleted,
            RefreshEvent::Reindexed(n) => EventView::Reindexed(*n),
            RefreshEvent::Failed(failure) => EventView::Failed(*failure),
        }
    }
}

/// The state of the work on one source.
pub struct RefreshView {
    pub purpose: Purpose,
    pub phase: Phase,
    /// The record of the source, if it has one.
    pub record: Option<SourceMetadataView>,
    /// The fingerprint that was read, once it has been.
    pub fingerprint: Option<Seq<char>>,
    /// Whether the record was changed and has to be stored.
    pub touched: bool,
}

/// Whether a record says where its repository lives: the local clone, and
/// the owner, name and branch to fetch from.
pub open spec fn has_locator(record: SourceMetadataView) -> bool {
    record.local_path is Some && record.owner is Some && record.repo is Some && record.branch
        is Some
}

/// The report that is waited for in each phase.
pub open spec fn awaits(phase: Phase, event: EventView) -> bool {
    match phase {
        Phase::Start => event is Begin,
        Phase::PathCheck => event is PathChecked,
        Phase::Syncing => event is Synced,
        Phase::Fingerprinting => event is Fingerprint,
        Phase::Deleting => event is Deleted || event is Failed,
        Phase::Reindexing => event is Reindexed || event is Failed,
        Phase::Done => false,
    }
}

/// The state in which the work on a source ends.
pub open spec fn ended(state: RefreshView) -> RefreshView {
    RefreshView { phase: Phase::Done, ..state }
}

/// The outcome that a failure leads to.
pub open spec fn outcome_of(failure: Failure) -> Outcome {
    match failure {
        Failure::Indexing => Outcome::IndexFailed,
        Failure::Storage => Outcome::StorageFailed,
    }
}

/// Whether nothing more can be done in this round once a source ended in
/// `outcome`: the round ends where the index cannot be written.
pub open spec fn ends_round(outcome: Outcome) -> bool {
    outcome is StorageFailed
}

/// The state after a report, and what is to be done next. `due` says
/// whether a check of the source is due, and `now` is the time that is
/// written into the record where the record changes. A failure while the
/// index is being replaced ends the work and leaves the record as it was.
/// A report that is not waited for ends the work too.
pub open spec fn transition(state: RefreshView, event: EventView, due: bool, now: Seq<char>) -> (
    RefreshView,
    RefreshAction,
) {
    match (state.phase, event, state.record) {
        (Phase::Start, EventView::Begin, None) => (
            ended(state),
            RefreshAction::Finish(Outcome::NotTracked),
        ),
        (Phase::Start, EventView::Begin, Some(record)) => {
            if state.purpose == Purpose::Check && !due {
                (ended(state), RefreshAction::Finish(Outcome::NotDue))
            } else if !has_locator(record) {
                (ended(state), RefreshAction::Finish(Outcome::NotGit))
            } else {
                (RefreshView { phase: Phase::PathCheck, ..state }, RefreshAction::CheckPath)
            }
        },
        (Phase::PathCheck, EventView::PathChecked(there), _) => {
            if there {
                (RefreshView { phase: Phase::Syncing, ..state }, RefreshAction::Sync)
            } else {
                (ended(state), RefreshAction::Finish(Outcome::PathMissing))
            }
        },
        (Phase::Syncing, EventView::Synced(ok), _) => {
            if ok {
                (
                    RefreshView { phase: Phase::Fingerprinting, ..state },
                    RefreshAction::ReadFingerprint,
                )
            } else {
                (ended(state), RefreshAction::Finish(Outcome::FetchFailed))
            }
        },
        (Phase::Fingerprinting, EventView::Fingerprint(Some(current)), Some(record)) => {
            if record.last_commit_hash == Some(current) {
                (
                    RefreshView {
                        phase: Phase::Done,
                        record: Some(checked(record, now)),
                        fingerprint: Some(current),
                        touched: true,
                        ..state
                    },
                    RefreshAction::Finish(Outcome::UpToDate),
                )
            } else if state.purpose == Purpose::Check {
                (
                    RefreshView { phase: Phase::Done, fingerprint: Some(current), ..state },
                    RefreshAction::Finish(Outcome::UpdateAvailable),
                )
            } else {
                (
                    RefreshView { phase: Phase::Deleting, fingerprint: Some(current), ..state },
                    RefreshAction::DeleteIndexed,
                )
            }
        },
        (Phase::Fingerprinting, EventView::Fingerprint(None), Some(_)) => (
            ended(state),
            RefreshAction::Finish(Outcome::FingerprintFailed),
        ),
        (Phase::Deleting, EventView::Deleted, _) => (
            RefreshView { phase: Phase::Reindexing, ..state },
            RefreshAction::Reindex,
        ),
        (Phase::Deleting, EventView::Failed(failure), _) => (
            ended(state),
            RefreshAction::Finish(outcome_of(failure)),
        ),
        (Phase::Reindexing, EventView::Failed(failure), _) => (
            ended(state),
            RefreshAction::Finish(outcome_of(failure)),
        ),
        (Phase::Reindexing, EventView::Reindexed(chunks), Some(record)) => match state.fingerprint {
            Some(current) => (
                RefreshView {
                    phase: Phase::Done,
                    record: Some(refreshed(record, current, now)),
                    touched: true,
                    ..state
                },
                RefreshAction::Finish(Outcome::Updated(chunks)),
            ),
            None => (ended(state), RefreshAction::Finish(Outcome::FingerprintFailed)),
        },
        _ => (ended(state), RefreshAction::Finish(Outcome::NotTracked)),
    }
}

/// Whether a state is one that the work on a source can be in: past the
/// start there is a record with a locator, past the reading of the
/// fingerprint there is a fingerprint, and only a record that is there can
/// have been changed.
pub open spec fn coherent(state: RefreshView) -> bool {
    &&& (state.phase != Phase::Start && state.phase != Phase::Done ==> (
    state.record matches Some(record) && has_locator(record)))
    &&& (state.phase == Phase::Deleting || state.phase == Phase::Reindexing
        ==> state.fingerprint is Some && state.purpose == Purpose::Run)
    &&& (state.touched ==> state.record is Some)
}

// ---------------------------------------------------------------------------
// Whole runs
// ---------------------------------------------------------------------------

/// What the caller would find if it did all that it can be asked to do.
pub struct World {
    /// Whether the local clone is there.
    pub path_exists: bool,
    /// Whether fetching succeeds.
    pub synced: bool,
    /// The fingerprint of the clone once it is fetched, if it can be read.
    pub fingerprint: Option<Seq<char>>,
    /// The number of chunks that indexing the source anew gives.
    pub chunks: usize,
    /// Whether deleting what was indexed of the source fails.
    pub delete_fails: bool,
    /// What goes wrong while the source is indexed anew, if anything does.
    pub index_fails: Option<Failure>,
}

/// Whether the index can be replaced without a failure.
pub open spec fn index_works(world: World) -> bool {
    !world.delete_fails && world.index_fails is None
}

/// The state before the work on a source begins.
pub open spec fn initial(purpose: Purpose, record: Option<SourceMetadataView>) -> RefreshView {
    RefreshView { purpose, phase: Phase::Start, record, fingerprint: None, touched: false }
}

/// The report that the caller makes in each phase.
pub open spec fn report_in(phase: Phase, world: World) -> EventView {
    match phase {
        Phase::Start => EventView::Begin,
        Phase::PathCheck => EventView::PathChecked(world.path_exists),
        Phase::Syncing => EventView::Synced(world.synced),
        Phase::Fingerprinting => EventView::Fingerprint(world.fingerprint),
        Phase::Deleting => if world.delete_fails {
            EventView::Failed(Failure::Storage)
        } else {
            EventView::Deleted
        },
        Phase::Reindexing => match world.index_fails {
            Some(failure) => EventView::Failed(failure),
            None => EventView::Reindexed(world.chunks),
        },
        Phase::Done => EventView::Begin,
    }
}

/// How many reports at most are still to come.
pub open spec fn steps_left(phase: Phase) -> nat {
    match phase {
        Phase::Start => 6,
        Phase::PathCheck => 5,
        Phase::Syncing => 4,
        Phase::Fingerprinting => 3,
        Phase::Deleting => 2,
        Phase::Reindexing => 1,
        Phase::Done => 0,
    }
}

/// All that the caller is asked to do from `state` on, in order, and the
/// state in which the work ends.
pub open spec fn run_from(state: RefreshView, world: World, due: bool, now: Seq<char>) -> (
    Seq<RefreshAction>,
    RefreshView,
)
    decreases steps_left(state.phase),
{
    if state.phase == Phase::Done {
        (Seq::empty(), state)
    } else {
        let (next, action) = transition(state, report_in(state.phase, world), due, now);
        if steps_left(next.phase) < steps_left(state.phase) {
            let (later, last) = run_from(next, world, due, now);
            (seq![action] + later, last)
        } else {
            (seq![action], next)
        }
    }
}

/// All that the caller is asked to do for a source, in order, and the
/// state in which the work ends.
pub open spec fn run(
    purpose: Purpose,
    record: Option<SourceMetadataView>,
    world: World,
    due: bool,
    now: Seq<char>,
) -> (Seq<RefreshAction>, RefreshView) {
    run_from(initial(purpose, record), world, due, now)
}

/// Every step brings the work nearer to its end, and leaves it in a state
/// that it can be in.
pub proof fn law_steps_advance(state: RefreshView, event: EventView, due: bool, now: Seq<char>)
    requires
        coherent(state),
        awaits(state.phase, event),
    ensures
        steps_left(transition(state, event, due, now).0.phase) < steps_left(state.phase),
        coherent(transition(state, event, due, now).0),
        transition(state, event, due, now).1 is Finish <==> transition(
            state,
            event,
            due,
            now,
        ).0.phase == Phase::Done,
{
}

/// A source that is found as it was at its last refresh is only noted as
/// checked: the caller looks for the clone, fetches and reads the
/// fingerprint, and is asked for nothing else. Nothing is deleted and
/// nothing is indexed.
pub proof fn law_unchanged_source_is_only_checked(
    purpose: Purpose,
    record: SourceMetadataView,
    world: World,
    now: Seq<char>,
)
    requires
        has_locator(record),
        world.path_exists,
        world.synced,
        world.fingerprint is Some,
        record.last_commit_hash == world.fingerprint,
    ensures
        run(purpose, Some(record), world, true, now).0 == seq![
            RefreshAction::CheckPath,
            RefreshAction::Sync,
            RefreshAction::ReadFingerprint,
            RefreshAction::Finish(Outcome::UpToDate),
        ],
        run(purpose, Some(record), world, true, now).1.record == Some(checked(record, now)),
        run(purpose, Some(record), world, true, now).1.touched,
{
    reveal_with_fuel(run_from, 6);
    let result = run(purpose, Some(record), world, true, now);
    assert(result.0 =~= seq![
        RefreshAction::CheckPath,
        RefreshAction::Sync,
        RefreshAction::ReadFingerprint,
        RefreshAction::Finish(Outcome::UpToDate),
    ]);
}

/// A source that has changed is replaced when an update runs and nothing
/// fails: after the fingerprint is read, what was indexed of the source is
/// deleted, once; then the source is indexed anew; then the record is given
/// the new fingerprint and the time of the refresh.
pub proof fn law_changed_source_is_replaced(
    record: SourceMetadataView,
    world: World,
    due: bool,
    now: Seq<char>,
)
    requires
        has_locator(record),
        world.path_exists,
        world.synced,
        world.fingerprint is Some,
        record.last_commit_hash != world.fingerprint,
        index_works(world),
    ensures
        run(Purpose::Run, Some(record), world, due, now).0 == seq![
            RefreshAction::CheckPath,
            RefreshAction::Sync,
            RefreshAction::ReadFingerprint,
            RefreshAction::DeleteIndexed,
            RefreshAction::Reindex,
            RefreshAction::Finish(Outcome::Updated(world.chunks)),
        ],
        run(Purpose::Run, Some(record), world, due, now).1.record == Some(
            refreshed(record, world.fingerprint->0, now),
        ),
        run(Purpose::Run, Some(record), world, due, now).1.touched,
{
    reveal_with_fuel(run_from, 7);
    let result = run(Purpose::Run, Some(record), world, due, now);
    assert(result.0 =~= seq![
        RefreshAction::CheckPath,
        RefreshAction::Sync,
        RefreshAction::ReadFingerprint,
        RefreshAction::DeleteIndexed,
        RefreshAction::Reindex,
        RefreshAction::Finish(Outcome::Updated(world.chunks)),
    ]);
}

/// Whether `actions` end with the work finished in `outcome`.
pub open spec fn ends_in(actions: Seq<RefreshAction>, outcome: Outcome) -> bool {
    actions.len() > 0 && actions.last() == RefreshAction::Finish(outcome)
}

/// A source whose index could not be replaced keeps its record: where
/// deleting or indexing fails, the work ends with that failure, the record
/// is as it was and is not to be stored, so the next update finds the
/// source changed and takes it up again. Only a failure of the storage
/// ends the round.
pub proof fn law_failure_keeps_the_record(
    record: SourceMetadataView,
    world: World,
    due: bool,
    now: Seq<char>,
)
    requires
        has_locator(record),
        world.path_exists,
        world.synced,
        world.fingerprint is Some,
        record.last_commit_hash != world.fingerprint,
        !index_works(world),
    ensures
        ({
            let done = run(Purpose::Run, Some(record), world, due, now);
            let failure = if world.delete_fails {
                Failure::Storage
            } else {
                world.index_fails->0
            };
            &&& ends_in(done.0, outcome_of(failure))
            &&& done.1.record == Some(record)
            &&& !done.1.touched
            &&& ends_round(outcome_of(failure)) <==> failure == Failure::Storage
        }),
{
    reveal_with_fuel(run_from, 7);
}

/// Whether nothing is deleted and nothing is indexed among `actions`.
pub open spec fn leaves_index_alone(actions: Seq<RefreshAction>) -> bool {
    forall|i: int|
        0 <= i < actions.len() ==> #[trigger] actions[i] != RefreshAction::DeleteIndexed
            && actions[i] != RefreshAction::Reindex
}

/// The index is touched only to replace a source that has changed: where
/// the caller is asked to delete or to index, an update is running, the
/// clone was there and was fetched, and the fingerprint that was read is
/// not the one on record. A check never asks for either.
pub proof fn law_index_touched_only_for_a_change(
    purpose: Purpose,
    record: Option<SourceMetadataView>,
    world: World,
    due: bool,
    now: Seq<char>,
)
    requires
        !leaves_index_alone(run(purpose, record, world, due, now).0),
    ensures
        purpose == Purpose::Run,
        world.path_exists,
        world.synced,
        record matches Some(known) && has_locator(known) && (world.fingerprint matches Some(
            current,
        ) && known.last_commit_hash != Some(current)),
{
    reveal_with_fuel(run_from, 7);
    let actions = run(purpose, record, world, due, now).0;
    let i = choose|i: int|
        0 <= i < actions.len() && !(#[trigger] actions[i] != RefreshAction::DeleteIndexed
            && actions[i] != RefreshAction::Reindex);
    assert(0 <= i < actions.len());
    assert(actions[i] == RefreshAction::DeleteIndexed || actions[i] == RefreshAction::Reindex);
}

/// A second update right after the first, with nothing changed in between,
/// leaves the index alone, unless the first failed to replace the index:
/// whatever is on record of the source and whatever the first update found
/// and did, the second is asked neither to delete nor to index. Where the
/// first update ended with the source up to date or indexed anew, the
/// second ends with the source up to date, and with the same fingerprint on
/// record.
pub proof fn law_second_run_indexes_nothing(
    record: Option<SourceMetadataView>,
    world: World,
    second_chunks: usize,
    first_now: Seq<char>,
    second_now: Seq<char>,
)
    ensures
        ({
            let first = run(Purpose::Run, record, world, true, first_now);
            let second = run(
                Purpose::Run,
                first.1.record,
                World { chunks: second_chunks, ..world },
                true,
                second_now,
            );
            &&& ends_in(first.0, Outcome::IndexFailed) || ends_in(first.0, Outcome::StorageFailed)
                || leaves_index_alone(second.0)
            &&& (ends_in(first.0, Outcome::UpToDate) || (first.0.len() > 0 && first.0.last()
                is Finish && first.0.last()->Finish_0 is Updated)) ==> ends_in(
                second.0,
                Outcome::UpToDate,
            ) && (first.1.record matches Some(kept) && kept.last_commit_hash == world.fingerprint
                && second.1.record == Some(checked(kept, second_now)))
        }),
{
    reveal_with_fuel(run_from, 7);
    let first = run(Purpose::Run, record, world, true, first_now);
    let again = World { chunks: second_chunks, ..world };
    let second = run(Purpose::Run, first.1.record, again, true, second_now);
    match record {
        Some(known) if has_locator(known) && world.path_exists && world.synced => {
            match world.fingerprint {
                Some(fingerprint) => {
                    if known.last_commit_hash == Some(fingerprint) {
                        law_unchanged_source_is_only_checked(
                            Purpose::Run,
                            known,
                            world,
                            first_now,
                        );
                        let kept = first.1.record->0;
                        assert(has_locator(kept));
                        law_unchanged_source_is_only_checked(
                            Purpose::Run,
                            kept,
                            again,
                            second_now,
                        );
                    } else if index_works(world) {
                        law_changed_source_is_replaced(known, world, true, first_now);
                        let kept = first.1.record->0;
                        assert(has_locator(kept));
                        law_unchanged_source_is_only_checked(
                            Purpose::Run,
                            kept,
                            again,
                            second_now,
                        );
                    } else {
                        law_failure_keeps_the_record(known, world, true, first_now);
                    }
                },
                None => {},
            }
        },
        _ => {},
    }
}

/// The outcome that a failure leads to.
pub fn failed_outcome(failure: Failure) -> (outcome: Outcome)
    ensures
        outcome == outcome_of(failure),
{
    match failure {
        Failure::Indexing => Outcome::IndexFailed,
        Failure::Storage => Outcome::StorageFailed,
    }
}

/// Whether the round ends with a source that ended in `outcome`.
pub fn round_ends(outcome: Outcome) -> (ends: bool)
    ensures
        ends == ends_round(outcome),
{
    match outcome {
        Outcome::StorageFailed => true,
        _ => false,
    }
}

/// What is reported of indexing a source anew that took in `indexed`
/// chunks and gave up `given_up` files: that the source was indexed, if no
/// file was given up, and that indexing failed, if one was.
pub fn indexing_report(indexed: usize, given_up: usize) -> (event: RefreshEvent)
    ensures
        event@ == if given_up == 0 {
            EventView::Reindexed(indexed)
        } else {
            EventView::Failed(Failure::Indexing)
        },
{
    if given_up == 0 {
        RefreshEvent::Reindexed(indexed)
    } else {
        RefreshEvent::Failed(Failure::Indexing)
    }
}

/// The work on one source.
pub struct SourceRefresh {
    purpose: Purpose,
    phase: Phase,
    record: Option<SourceMetadata>,
    fingerprint: Option<String>,
    touched: bool,
}

impl View for SourceRefresh {
    type V = RefreshView;

    closed spec fn view(&self) -> RefreshView {
        RefreshView {
            purpose: self.purpose,
            phase: self.phase,
            record: match self.record {
                Some(record) => Some(record@),
                None => None,
            },
            fingerprint: match self.fingerprint {
                Some(f) => Some(f@),
                None => None,
            },
            touched: self.touched,
        }
    }
}

impl SourceRefresh {
    /// The state is one that the work can be in.
    #[verifier::type_invariant]
    spec fn is_coherent(&self) -> bool {
        coherent(self@)
    }

    /// The work on a source, not yet begun. `record` is what is on record
    /// of the source, if anything is.
    pub fn new(purpose: Purpose, record: Option<SourceMetadata>) -> (work: Self)
        ensures
            work@ == (RefreshView {
                purpose,
                phase: Phase::Start,
                record: match record {
                    Some(r) => Some(r@),
                    None => None,
                },
                fingerprint: None,
                touched: false,
            }),
    {
        SourceRefresh { purpose, phase: Phase::Start, record, fingerprint: None, touched: false }
    }

    /// How far the work has come.
    pub fn phase(&self) -> (phase: Phase)
        ensures
            phase == self@.phase,
            coherent(self@),
    {
        proof {
            use_type_invariant(self);
        }
        self.phase
    }

    /// The record of the source as it now stands.
    pub fn record(&self) -> (record: Option<&SourceMetadata>)
        ensures
            match record {
                Some(r) => self@.record == Some(r@),
                None => self@.record is None,
            },
    {
        self.record.as_ref()
    }

    /// Whether `event` is the report that is waited for.
    pub fn expects(&self, event: &RefreshEvent) -> (yes: bool)
        ensures
            yes == awaits(self@.phase, event@),
    {
        match (self.phase, event) {
            (Phase::Start, RefreshEvent::Begin) => true,
            (Phase::PathCheck, RefreshEvent::PathChecked(_)) => true,
            (Phase::Syncing, RefreshEvent::Synced(_)) => true,
            (Phase::Fingerprinting, RefreshEvent::Fingerprint(_)) => true,
            (Phase::Deleting, RefreshEvent::Deleted) => true,
            (Phase::Deleting, RefreshEvent::Failed(_)) => true,
            (Phase::Reindexing, RefreshEvent::Reindexed(_)) => true,
            (Phase::Reindexing, RefreshEvent::Failed(_)) => true,
            _ => false,
        }
    }

    /// The record to store, if the work has changed it.
    pub fn into_record(self) -> (record: Option<SourceMetadata>)
        ensures
            self@.touched ==> (record matches Some(r) && self@.record == Some(r@)),
            !self@.touched ==> record is None,
            self@.touched ==> self@.record is Some,
    {
        proof {
            use_type_invariant(&self);
        }
        if self.touched {
            self.record
        } else {
            None
        }
    }

    /// Takes a report and says what is to be done next, with `due` for
    /// whether a check is due and `now` for the time.
    pub fn step_at(&mut self, event: RefreshEvent, due: bool, now: String) -> (action:
        RefreshAction)
        requires
            awaits(old(self)@.phase, event@),
        ensures
            (final(self)@, action) == transition(old(self)@, event@, due, now@),
    {
        proof {
            use_type_invariant(&*self);
        }
        let ghost before = self@;
        let mut state = SourceRefresh::new(self.purpose, None);
        std::mem::swap(self, &mut state);
        let SourceRefresh { purpose, phase, record, fingerprint, touched } = state;
        let (next, action): (SourceRefresh, RefreshAction) = match (phase, event, record) {
            (Phase::Start, RefreshEvent::Begin, None) => (
                SourceRefresh { purpose, phase: Phase::Done, record: None, fingerprint, touched },
                RefreshAction::Finish(Outcome::NotTracked),
            ),
            (Phase::Start, RefreshEvent::Begin, Some(r)) => {
                if purpose == Purpose::Check && !due {
                    (
                        SourceRefresh {
                            purpose,
                            phase: Phase::Done,
                            record: Some(r),
                            fingerprint,
                            touched,
                        },
                        RefreshAction::Finish(Outcome::NotDue),
                    )
                } else if !(r.local_path.is_some() && r.owner.is_some() && r.repo.is_some()
                    && r.branch.is_some()) {
                    (
                        SourceRefresh {
                            purpose,
                            phase: Phase::Done,
                            record: Some(r),
                            fingerprint,
                            touched,
                        },
                        RefreshAction::Finish(Outcome::NotGit),
                    )
                } else {
                    (
                        SourceRefresh {
                            purpose,
                            phase: Phase::PathCheck,
                            record: Some(r),
                            fingerprint,
                            touched,
                        },
                        RefreshAction::CheckPath,
                    )
                }
            },
            (Phase::PathCheck, RefreshEvent::PathChecked(there), record) => {
                if there {
                    (
                        SourceRefresh { purpose, phase: Phase::Syncing, record, fingerprint, touched },
                        RefreshAction::Sync,
                    )
                } else {
                    (
                        SourceRefresh { purpose, phase: Phase::Done, record, fingerprint, touched },
                        RefreshAction::Finish(Outcome::PathMissing),
                    )
                }
            },
            (Phase::Syncing, RefreshEvent::Synced(ok), record) => {
                if ok {
                    (
                        SourceRefresh {
                            purpose,
                            phase: Phase::Fingerprinting,
                            record,
                            fingerprint,
                            touched,
                        },
                        RefreshAction::ReadFingerprint,
                    )
                } else {
                    (
                        SourceRefresh { purpose, phase: Phase::Done, record, fingerprint, touched },
                        RefreshAction::Finish(Outcome::FetchFailed),
                    )
                }
            },
            (Phase::Fingerprinting, RefreshEvent::Fingerprint(Some(current)), Some(r)) => {
                if !r.has_changed(current.as_str()) {
                    let mut r = r;
                    r.record_check(now);
                    (
                        SourceRefresh {
                            purpose,
                            phase: Phase::Done,
                            record: Some(r),
                            fingerprint: Some(current),
                            touched: true,
                        },
                        RefreshAction::Finish(Outcome::UpToDate),
                    )
                } else if purpose == Purpose::Check {
                    (
                        SourceRefresh {
                            purpose,
                            phase: Phase::Done,
                            record: Some(r),
                            fingerprint: Some(current),
                            touched,
                        },
                        RefreshAction::Finish(Outcome::UpdateAvailable),
                    )
                } else {
                    (
                        SourceRefresh {
                            purpose,
                            phase: Phase::Deleting,
                            record: Some(r),
                            fingerprint: Some(current),
                            touched,
                        },
                        RefreshAction::DeleteIndexed,
                    )
                }
            },
            (Phase::Fingerprinting, RefreshEvent::Fingerprint(None), Some(r)) => (
                SourceRefresh { purpose, phase: Phase::Done, record: Some(r), fingerprint, touched },
                RefreshAction::Finish(Outcome::FingerprintFailed),
            ),
            (Phase::Deleting, RefreshEvent::Deleted, record) => (
                SourceRefresh { purpose, phase: Phase::Reindexing, record, fingerprint, touched },
                RefreshAction::Reindex,
            ),
            (Phase::Deleting, RefreshEvent::Failed(failure), record) => (
                SourceRefresh { purpose, phase: Phase::Done, record, fingerprint, touched },
                RefreshAction::Finish(failed_outcome(failure)),
            ),
            (Phase::Reindexing, RefreshEvent::Failed(failure), record) => (
                SourceRefresh { purpose, phase: Phase::Done, record, fingerprint, touched },
                RefreshAction::Finish(failed_outcome(failure)),
            ),
            (Phase::Reindexing, RefreshEvent::Reindexed(chunks), Some(r)) => match fingerprint {
                Some(current) => {
                    let mut r = r;
                    r.record_refresh(current.clone(), now);
                    (
                        SourceRefresh {
                            purpose,
                            phase: Phase::Done,
                            record: Some(r),
                            fingerprint: Some(current),
                            touched: true,
                        },
                        RefreshAction::Finish(Outcome::Updated(chunks)),
                    )
                },
                None => (
                    SourceRefresh {
                        purpose,
                        phase: Phase::Done,
                        record: Some(r),
                        fingerprint: None,
                        touched,
                    },
                    RefreshAction::Finish(Outcome::FingerprintFailed),
                ),
            },
            (_, _, record) => (
                SourceRefresh { purpose, phase: Phase::Done, record, fingerprint, touched },
                RefreshAction::Finish(Outcome::NotTracked),
            ),
        };
        proof {
            assert((next@, action) == transition(before, event@, due, now@));
        }
        *self = next;
        action
    }

    /// Takes a report and says what is to be done next, by the clock and
    /// the policy of `scheduler`.
    pub fn step(&mut self, scheduler: &Scheduler, event: RefreshEvent) -> (action: RefreshAction)
        requires
            awaits(old(self)@.phase, event@),
        ensures
            exists|due: bool, now: Seq<char>|
                (final(self)@, action) == transition(old(self)@, event@, due, now),
    {
        let due = match (&self.phase, &self.purpose, &self.record) {
            (Phase::Start, Purpose::Check, Some(record)) => scheduler.needs_check(record),
            _ => true,
        };
        let now = write_rfc3339(&utc_now());
        let ghost before = self@;
        let action = self.step_at(event, due, now);
        assert((self@, action) == transition(before, event@, due, now@));
        action
    }
}

} // verus!
