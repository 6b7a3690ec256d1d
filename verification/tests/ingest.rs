use brain::config::{BrainConfig, DefaultSource};
use brain::ingest::refresh::{
    failed_outcome, indexing_report, round_ends, Failure, Outcome, Phase, Purpose, RefreshAction,
    RefreshEvent, SourceRefresh,
};
use brain::ingest::{index_source, IndexBatcher, BATCH_SIZE};
use brain::loaders::chunker::Chunk;
use brain::loaders::document::LoadedDocument;
use brain::scheduler::report::{
    check_needs_update, check_reason_text, may_run, skip_reason_text, was_forced,
};
use brain::scheduler::{Scheduler, SourceMetadata, UpdateCheckResult, UpdateReport};
use brain::storage::{Document, SourceType};
use chrono::DateTime;
use std::collections::HashSet;
use std::path::PathBuf;

const NOW: &str = "2024-06-01T12:00:00+00:00";

fn stored(fingerprint: Option<&str>) -> SourceMetadata {
    SourceMetadata {
        source: "github:rust-lang/book".to_string(),
        source_type: "github".to_string(),
        last_commit_hash: fingerprint.map(|f| f.to_string()),
        last_check: Some("2024-01-01T00:00:00+00:00".to_string()),
        last_update: Some("2024-01-01T00:00:00+00:00".to_string()),
        owner: Some("rust-lang".to_string()),
        repo: Some("book".to_string()),
        branch: Some("main".to_string()),
        local_path: Some("/data/repos/rust-lang-book".to_string()),
    }
}

fn drive(work: &mut SourceRefresh, events: Vec<RefreshEvent>) -> Vec<RefreshAction> {
    let mut actions = Vec::new();
    for event in events {
        assert!(work.expects(&event));
        actions.push(work.step_at(event, true, NOW.to_string()));
    }
    actions
}

fn found(fingerprint: &str) -> Vec<RefreshEvent> {
    vec![
        RefreshEvent::Begin,
        RefreshEvent::PathChecked(true),
        RefreshEvent::Synced(true),
        RefreshEvent::Fingerprint(Some(fingerprint.to_string())),
    ]
}

fn chunk(index: usize) -> Chunk {
    Chunk { content: format!("chunk number {}", index), index }
}

#[test]
fn unchanged_source_is_only_checked() {
    let mut work = SourceRefresh::new(Purpose::Run, Some(stored(Some("abc123"))));
    let actions = drive(&mut work, found("abc123"));
    assert_eq!(
        actions,
        vec![
            RefreshAction::CheckPath,
            RefreshAction::Sync,
            RefreshAction::ReadFingerprint,
            RefreshAction::Finish(Outcome::UpToDate),
        ]
    );
    assert!(!actions.contains(&RefreshAction::DeleteIndexed));
    assert!(!actions.contains(&RefreshAction::Reindex));
    assert_eq!(work.phase(), Phase::Done);
    assert!(!work.expects(&RefreshEvent::Deleted));
    assert!(!work.expects(&RefreshEvent::Reindexed(3)));
    let record = work.into_record().unwrap();
    assert_eq!(record.last_commit_hash.as_deref(), Some("abc123"));
    assert_eq!(record.last_check.as_deref(), Some(NOW));
    assert_eq!(record.last_update.as_deref(), Some("2024-01-01T00:00:00+00:00"));
}

#[test]
fn changed_source_is_deleted_once_then_indexed_anew() {
    let mut work = SourceRefresh::new(Purpose::Run, Some(stored(Some("abc123"))));
    let mut events = found("def456");
    events.push(RefreshEvent::Deleted);
    events.push(RefreshEvent::Reindexed(250));
    let actions = drive(&mut work, events);
    assert_eq!(
        actions,
        vec![
            RefreshAction::CheckPath,
            RefreshAction::Sync,
            RefreshAction::ReadFingerprint,
            RefreshAction::DeleteIndexed,
            RefreshAction::Reindex,
            RefreshAction::Finish(Outcome::Updated(250)),
        ]
    );
    assert_eq!(actions.iter().filter(|a| **a == RefreshAction::DeleteIndexed).count(), 1);
    let record = work.into_record().unwrap();
    assert_eq!(record.last_commit_hash.as_deref(), Some("def456"));
    assert_eq!(record.last_check.as_deref(), Some(NOW));
    assert_eq!(record.last_update.as_deref(), Some(NOW));
    assert_eq!(record.source, "github:rust-lang/book");
}

#[test]
fn second_run_without_change_indexes_nothing() {
    let mut first = SourceRefresh::new(Purpose::Run, Some(stored(Some("abc123"))));
    let mut events = found("def456");
    events.push(RefreshEvent::Deleted);
    events.push(RefreshEvent::Reindexed(12));
    let first_actions = drive(&mut first, events);
    assert_eq!(first_actions.last(), Some(&RefreshAction::Finish(Outcome::Updated(12))));
    let kept = first.into_record().unwrap();
    let mut second = SourceRefresh::new(Purpose::Run, Some(kept));
    let second_actions = drive(&mut second, found("def456"));
    assert_eq!(second_actions.last(), Some(&RefreshAction::Finish(Outcome::UpToDate)));
    assert!(!second_actions.contains(&RefreshAction::DeleteIndexed));
    assert!(!second_actions.contains(&RefreshAction::Reindex));
    let after = second.into_record().unwrap();
    assert_eq!(after.last_commit_hash.as_deref(), Some("def456"));
}

#[test]
fn source_never_synced_counts_as_changed() {
    let mut work = SourceRefresh::new(Purpose::Run, Some(stored(None)));
    let actions = drive(&mut work, found("abc123"));
    assert_eq!(actions.last(), Some(&RefreshAction::DeleteIndexed));
    assert_eq!(work.phase(), Phase::Deleting);
    assert!(work.into_record().is_none());
}

#[test]
fn check_reports_a_change_and_touches_nothing() {
    let mut work = SourceRefresh::new(Purpose::Check, Some(stored(Some("abc123"))));
    let actions = drive(&mut work, found("def456"));
    assert_eq!(actions.last(), Some(&RefreshAction::Finish(Outcome::UpdateAvailable)));
    assert_eq!(work.record().unwrap().last_commit_hash.as_deref(), Some("abc123"));
    assert!(work.into_record().is_none());
}

#[test]
fn check_that_is_not_due_ends_at_once() {
    let mut work = SourceRefresh::new(Purpose::Check, Some(stored(Some("abc123"))));
    let action = work.step_at(RefreshEvent::Begin, false, NOW.to_string());
    assert_eq!(action, RefreshAction::Finish(Outcome::NotDue));
    assert_eq!(work.phase(), Phase::Done);
    assert!(work.into_record().is_none());
    let mut run = SourceRefresh::new(Purpose::Run, Some(stored(Some("abc123"))));
    let action = run.step_at(RefreshEvent::Begin, false, NOW.to_string());
    assert_eq!(action, RefreshAction::CheckPath);
}

#[test]
fn source_without_a_record_is_not_tracked() {
    let mut work = SourceRefresh::new(Purpose::Run, None);
    assert_eq!(work.phase(), Phase::Start);
    assert!(work.record().is_none());
    let action = work.step_at(RefreshEvent::Begin, true, NOW.to_string());
    assert_eq!(action, RefreshAction::Finish(Outcome::NotTracked));
    assert!(work.into_record().is_none());
}

#[test]
fn source_without_a_locator_is_not_a_repository() {
    for missing in 0..4 {
        let mut record = stored(Some("abc123"));
        match missing {
            0 => record.local_path = None,
            1 => record.owner = None,
            2 => record.repo = None,
            _ => record.branch = None,
        }
        let mut work = SourceRefresh::new(Purpose::Run, Some(record));
        let action = work.step_at(RefreshEvent::Begin, true, NOW.to_string());
        assert_eq!(action, RefreshAction::Finish(Outcome::NotGit));
    }
}

#[test]
fn missing_clone_failed_fetch_and_unreadable_fingerprint_end_the_work() {
    let mut work = SourceRefresh::new(Purpose::Run, Some(stored(Some("abc123"))));
    let actions =
        drive(&mut work, vec![RefreshEvent::Begin, RefreshEvent::PathChecked(false)]);
    assert_eq!(actions.last(), Some(&RefreshAction::Finish(Outcome::PathMissing)));
    assert!(work.into_record().is_none());

    let mut work = SourceRefresh::new(Purpose::Run, Some(stored(Some("abc123"))));
    let actions = drive(
        &mut work,
        vec![RefreshEvent::Begin, RefreshEvent::PathChecked(true), RefreshEvent::Synced(false)],
    );
    assert_eq!(actions.last(), Some(&RefreshAction::Finish(Outcome::FetchFailed)));

    let mut work = SourceRefresh::new(Purpose::Check, Some(stored(Some("abc123"))));
    let actions = drive(
        &mut work,
        vec![
            RefreshEvent::Begin,
            RefreshEvent::PathChecked(true),
            RefreshEvent::Synced(true),
            RefreshEvent::Fingerprint(None),
        ],
    );
    assert_eq!(actions.last(), Some(&RefreshAction::Finish(Outcome::FingerprintFailed)));
    assert!(work.into_record().is_none());
}

#[test]
fn reports_are_expected_in_their_phase_only() {
    let work = SourceRefresh::new(Purpose::Run, Some(stored(Some("abc123"))));
    assert!(work.expects(&RefreshEvent::Begin));
    assert!(!work.expects(&RefreshEvent::PathChecked(true)));
    assert!(!work.expects(&RefreshEvent::Synced(true)));
    assert!(!work.expects(&RefreshEvent::Fingerprint(None)));
    assert!(!work.expects(&RefreshEvent::Deleted));
    assert!(!work.expects(&RefreshEvent::Reindexed(0)));
}

#[test]
fn step_by_the_clock_of_the_scheduler() {
    let policy = Scheduler::new(PathBuf::from("m.json"), 1, 0, 0, "UTC").unwrap();
    let mut recent = stored(Some("abc123"));
    policy.update_check_time(&mut recent);
    let mut work = SourceRefresh::new(Purpose::Check, Some(recent));
    assert_eq!(work.step(&policy, RefreshEvent::Begin), RefreshAction::Finish(Outcome::NotDue));

    let mut work = SourceRefresh::new(Purpose::Check, Some(stored(Some("abc123"))));
    assert_eq!(work.step(&policy, RefreshEvent::Begin), RefreshAction::CheckPath);
    assert_eq!(work.step(&policy, RefreshEvent::PathChecked(true)), RefreshAction::Sync);
    assert_eq!(work.step(&policy, RefreshEvent::Synced(true)), RefreshAction::ReadFingerprint);
    let last = work.step(&policy, RefreshEvent::Fingerprint(Some("abc123".to_string())));
    assert_eq!(last, RefreshAction::Finish(Outcome::UpToDate));
    let record = work.into_record().unwrap();
    assert!(DateTime::parse_from_rfc3339(record.last_check.as_deref().unwrap()).is_ok());
    assert!(!policy.needs_check(&record));
}

#[test]
fn reasons_of_a_check() {
    assert_eq!(check_reason_text(Outcome::NotTracked, ""), "Not tracked in metadata");
    assert_eq!(check_reason_text(Outcome::NotDue, ""), "Not due for check yet");
    assert_eq!(check_reason_text(Outcome::NotGit, ""), "Local source - no remote updates");
    assert_eq!(check_reason_text(Outcome::PathMissing, ""), "Local path not found");
    assert_eq!(check_reason_text(Outcome::FetchFailed, ""), "Failed to fetch updates");
    assert_eq!(
        check_reason_text(Outcome::FingerprintFailed, "no HEAD"),
        "Error checking: no HEAD"
    );
    assert_eq!(check_reason_text(Outcome::UpToDate, ""), "Already up to date");
    assert_eq!(check_reason_text(Outcome::UpdateAvailable, ""), "New commits available");
    assert!(check_needs_update(Outcome::NotTracked));
    assert!(check_needs_update(Outcome::UpdateAvailable));
    assert!(!check_needs_update(Outcome::UpToDate));
    assert!(!check_needs_update(Outcome::NotDue));
    assert!(!check_needs_update(Outcome::FetchFailed));
}

#[test]
fn reasons_of_a_skipped_update() {
    assert_eq!(skip_reason_text(Outcome::NotTracked, ""), "Not in metadata");
    assert_eq!(skip_reason_text(Outcome::NotGit, ""), "Not a GitHub source");
    assert_eq!(skip_reason_text(Outcome::PathMissing, ""), "Local path not found");
    assert_eq!(skip_reason_text(Outcome::FetchFailed, ""), "Failed to fetch");
    assert_eq!(skip_reason_text(Outcome::FingerprintFailed, "no HEAD"), "Error: no HEAD");
    assert_eq!(skip_reason_text(Outcome::UpToDate, ""), "Already up to date");
}

#[test]
fn result_of_a_check() {
    let result = UpdateCheckResult::of("github:o/r", Outcome::UpdateAvailable, "", false);
    assert_eq!(result.source, "github:o/r");
    assert!(result.needs_update);
    assert_eq!(result.reason, "New commits available");
    assert!(!result.in_window);
    let report = UpdateReport {
        checked_at: NOW.to_string(),
        timezone: "UTC".to_string(),
        in_download_window: false,
        time_until_window_seconds: 3600,
        results: vec![result.clone()],
    };
    assert_eq!(report.results.len(), 1);
    assert_eq!(report.results[0].reason, result.reason);
}

#[test]
fn update_runs_in_the_window_or_when_forced() {
    assert!(may_run(true, false));
    assert!(may_run(true, true));
    assert!(may_run(false, true));
    assert!(!may_run(false, false));
    assert!(was_forced(false, true));
    assert!(!was_forced(true, true));
    assert!(!was_forced(false, false));
    assert!(!was_forced(true, false));
}

#[test]
fn batches_of_one_hundred_and_the_rest() {
    let mut batcher = IndexBatcher::new("github:o/r", SourceType::GitHub);
    let mut handed: Vec<Vec<Document>> = Vec::new();
    for i in 0..250 {
        if let Some(full) = batcher.add("src/lib.rs", &chunk(i)) {
            assert_eq!(batcher.count() % BATCH_SIZE, 0);
            handed.push(full);
        }
    }
    assert_eq!(batcher.count(), 250);
    let end = batcher.finish();
    let (rest, count) = (end.rest, end.indexed);
    assert!(end.failures.is_empty());
    assert_eq!(count, 250);
    assert_eq!(handed.len(), 2);
    assert!(handed.iter().all(|b| b.len() == BATCH_SIZE));
    let rest = rest.unwrap();
    assert_eq!(rest.len(), 50);
    let total: usize = handed.iter().map(|b| b.len()).sum::<usize>() + rest.len();
    assert_eq!(total, count);
    let all: Vec<&Document> = handed.iter().flatten().chain(rest.iter()).collect();
    for (i, document) in all.iter().enumerate() {
        assert_eq!(document.content, format!("chunk number {}", i));
        assert_eq!(document.chunk_index, i);
        assert_eq!(document.source, "github:o/r");
        assert_eq!(document.source_type, SourceType::GitHub);
        assert_eq!(document.file_path.as_deref(), Some("src/lib.rs"));
        assert!(DateTime::parse_from_rfc3339(&document.created_at).is_ok());
        assert_eq!(document.id.len(), 36);
    }
    let ids: HashSet<&str> = all.iter().map(|d| d.id.as_str()).collect();
    assert_eq!(ids.len(), 250);
}

#[test]
fn batch_that_is_exactly_full_leaves_no_rest() {
    let mut batcher = IndexBatcher::new("local:/notes", SourceType::Local);
    let mut full_batches = 0;
    for i in 0..200 {
        let full = batcher.add("a.md", &chunk(i));
        assert_eq!(full.is_some(), i % 100 == 99);
        if full.is_some() {
            full_batches += 1;
        }
    }
    let end = batcher.finish();
    assert!(end.rest.is_none());
    assert_eq!(end.indexed, 200);
    assert_eq!(full_batches, 2);
}

#[test]
fn batcher_without_chunks_hands_out_nothing() {
    let batcher = IndexBatcher::new("local:/notes", SourceType::Local);
    assert_eq!(batcher.count(), 0);
    let end = batcher.finish();
    assert!(end.rest.is_none());
    assert_eq!(end.indexed, 0);
    assert!(end.failures.is_empty());
}

#[test]
fn kinds_of_source_by_name() {
    assert_eq!(SourceType::GitHub.label(), "github");
    assert_eq!(SourceType::Local.label(), "local");
    assert_eq!(SourceType::Manual.label(), "manual");
    assert_eq!(SourceType::parse("github"), Ok(SourceType::GitHub));
    assert_eq!(SourceType::parse("GitHub"), Ok(SourceType::GitHub));
    assert_eq!(SourceType::parse("LOCAL"), Ok(SourceType::Local));
    assert_eq!(SourceType::parse("manual"), Ok(SourceType::Manual));
    assert_eq!(SourceType::parse("Weird"), Err("Unknown source type: Weird".to_string()));
    assert_eq!(SourceType::parse(""), Err("Unknown source type: ".to_string()));
    assert_eq!("Local".parse::<SourceType>(), Ok(SourceType::Local));
    assert_eq!("nope".parse::<SourceType>(), Err("Unknown source type: nope".to_string()));
}

#[test]
fn settings_that_the_library_reads() {
    let brain = BrainConfig { name: "brain".to_string(), chunk_size: 2, chunk_overlap: 1 };
    let chunks = brain.chunker().chunk("a b c");
    assert_eq!(chunks.len(), 2);
    assert_eq!(chunks[1].content, "b c");
    let default = DefaultSource {
        owner: "rust-lang".to_string(),
        repo: "book".to_string(),
        branch: "main".to_string(),
    };
    assert_eq!(default.source_name(), "github:rust-lang/book");
}

fn file(path: &str, chunks: usize) -> LoadedDocument {
    LoadedDocument {
        source: "book".to_string(),
        path: path.to_string(),
        chunks: (0..chunks)
            .map(|index| Chunk { content: format!("{} chunk {}", path, index), index })
            .collect(),
    }
}

#[test]
fn document_is_made_of_a_chunk_and_its_stamps() {
    let made = Document::from_chunk(
        "id-1".to_string(),
        "2024-06-01T12:00:00+00:00".to_string(),
        "github:o/r",
        SourceType::GitHub,
        "src/a.rs",
        &Chunk { content: "fn a() {}".to_string(), index: 3 },
    );
    assert_eq!(made.id, "id-1");
    assert_eq!(made.created_at, "2024-06-01T12:00:00+00:00");
    assert_eq!(made.content, "fn a() {}");
    assert_eq!(made.source, "github:o/r");
    assert_eq!(made.source_type, SourceType::GitHub);
    assert_eq!(made.file_path.as_deref(), Some("src/a.rs"));
    assert_eq!(made.chunk_index, 3);
}

#[test]
fn batcher_takes_stamped_chunks() {
    let mut batcher = IndexBatcher::new("local:/notes", SourceType::Local);
    for i in 0..99 {
        let full = batcher.add_stamped("a.md", &chunk(i), format!("id-{}", i), NOW.to_string());
        assert!(full.is_none());
    }
    let full = batcher.add_stamped("b.md", &chunk(99), "last".to_string(), NOW.to_string());
    let full = full.unwrap();
    assert_eq!(full.len(), BATCH_SIZE);
    assert_eq!(full[0].id, "id-0");
    assert_eq!(full[0].file_path.as_deref(), Some("a.md"));
    assert_eq!(full[98].id, "id-98");
    assert_eq!(full[99].id, "last");
    assert_eq!(full[99].file_path.as_deref(), Some("b.md"));
    assert_eq!(full[99].created_at, NOW);
    assert_eq!(batcher.count(), 100);
    assert!(batcher.finish().rest.is_none());
}

#[test]
fn whole_files_go_out_in_batches_that_sum_to_their_chunks() {
    let files = vec![file("a.rs", 30), file("b.rs", 250), file("c.rs", 0), file("d.rs", 45)];
    let total: usize = files.iter().map(|f| f.chunks.len()).sum();
    let mut batcher = IndexBatcher::new("github:o/r", SourceType::GitHub);
    let mut handed: Vec<Vec<Document>> = Vec::new();
    let mut per_file = Vec::new();
    for f in &files {
        let full = batcher.add_document(f);
        per_file.push(full.len());
        handed.extend(full);
    }
    assert_eq!(per_file, vec![0, 2, 0, 1]);
    let end = batcher.finish();
    assert_eq!(end.indexed, total);
    assert!(handed.iter().all(|b| b.len() == BATCH_SIZE));
    let rest = end.rest.unwrap();
    assert_eq!(rest.len(), 25);
    let sum: usize = handed.iter().map(|b| b.len()).sum::<usize>() + rest.len();
    assert_eq!(sum, total);
    let all: Vec<&Document> = handed.iter().flatten().chain(rest.iter()).collect();
    let mut expected = Vec::new();
    for f in &files {
        for c in &f.chunks {
            expected.push((f.path.clone(), c.index, c.content.clone()));
        }
    }
    let got: Vec<(String, usize, String)> = all
        .iter()
        .map(|d| (d.file_path.clone().unwrap(), d.chunk_index, d.content.clone()))
        .collect();
    assert_eq!(got, expected);
    assert!(all.iter().all(|d| d.source == "github:o/r"));
}

#[test]
fn file_given_up_leaves_the_others_alone() {
    let mut batcher = IndexBatcher::new("github:o/r", SourceType::GitHub);
    assert!(batcher.add_document(&file("d1.md", 3)).is_empty());
    batcher.give_up("d2.md", "tokenizer: unknown token");
    assert_eq!(batcher.count(), 3);
    assert!(batcher.add_document(&file("d3.md", 2)).is_empty());
    let end = batcher.finish();
    assert_eq!(end.indexed, 5);
    assert_eq!(end.failures.len(), 1);
    assert_eq!(end.failures[0].path, "d2.md");
    assert_eq!(end.failures[0].reason, "tokenizer: unknown token");
    let rest = end.rest.unwrap();
    let paths: Vec<&str> = rest.iter().map(|d| d.file_path.as_deref().unwrap()).collect();
    assert_eq!(paths, vec!["d1.md", "d1.md", "d1.md", "d3.md", "d3.md"]);
}

#[test]
fn failed_indexing_skips_the_source_and_keeps_its_record() {
    let mut work = SourceRefresh::new(Purpose::Run, Some(stored(Some("abc123"))));
    let mut events = found("def456");
    events.push(RefreshEvent::Deleted);
    events.push(indexing_report(40, 1));
    let actions = drive(&mut work, events);
    assert_eq!(actions.last(), Some(&RefreshAction::Finish(Outcome::IndexFailed)));
    assert!(!round_ends(Outcome::IndexFailed));
    assert_eq!(work.record().unwrap().last_commit_hash.as_deref(), Some("abc123"));
    assert!(work.into_record().is_none());
    assert_eq!(
        skip_reason_text(Outcome::IndexFailed, "d2.md: model error"),
        "Failed to index: d2.md: model error"
    );
    let mut next = SourceRefresh::new(Purpose::Run, Some(stored(Some("abc123"))));
    let again = drive(&mut next, found("def456"));
    assert_eq!(again.last(), Some(&RefreshAction::DeleteIndexed));
}

#[test]
fn failed_storage_ends_the_round() {
    let mut work = SourceRefresh::new(Purpose::Run, Some(stored(Some("abc123"))));
    let mut events = found("def456");
    events.push(RefreshEvent::Failed(Failure::Storage));
    let actions = drive(&mut work, events);
    assert_eq!(actions.last(), Some(&RefreshAction::Finish(Outcome::StorageFailed)));
    assert!(round_ends(Outcome::StorageFailed));
    assert!(work.into_record().is_none());

    let mut work = SourceRefresh::new(Purpose::Run, Some(stored(Some("abc123"))));
    let mut events = found("def456");
    events.push(RefreshEvent::Deleted);
    events.push(RefreshEvent::Failed(Failure::Storage));
    let actions = drive(&mut work, events);
    assert_eq!(actions.last(), Some(&RefreshAction::Finish(Outcome::StorageFailed)));
    for outcome in [Outcome::UpToDate, Outcome::Updated(3), Outcome::FetchFailed] {
        assert!(!round_ends(outcome));
    }
}

#[test]
fn reports_of_indexing_and_failures() {
    assert!(matches!(indexing_report(7, 0), RefreshEvent::Reindexed(7)));
    assert!(matches!(indexing_report(7, 2), RefreshEvent::Failed(Failure::Indexing)));
    assert!(matches!(indexing_report(0, 0), RefreshEvent::Reindexed(0)));
    assert_eq!(failed_outcome(Failure::Indexing), Outcome::IndexFailed);
    assert_eq!(failed_outcome(Failure::Storage), Outcome::StorageFailed);
    let work = SourceRefresh::new(Purpose::Run, Some(stored(Some("abc123"))));
    assert!(!work.expects(&RefreshEvent::Failed(Failure::Storage)));
}

#[test]
fn round_goes_on_after_a_source_that_failed() {
    let mut done = Vec::new();
    for (source, report) in [
        ("s1", indexing_report(12, 0)),
        ("s2", indexing_report(5, 1)),
        ("s3", indexing_report(9, 0)),
    ] {
        let mut record = stored(Some("abc123"));
        record.source = source.to_string();
        let mut work = SourceRefresh::new(Purpose::Run, Some(record));
        let mut events = found("def456");
        events.push(RefreshEvent::Deleted);
        events.push(report);
        let outcome = match drive(&mut work, events).last() {
            Some(RefreshAction::Finish(outcome)) => *outcome,
            _ => panic!("not finished"),
        };
        assert!(!round_ends(outcome));
        done.push((outcome, work.into_record().map(|r| r.last_commit_hash)));
    }
    assert_eq!(done[0], (Outcome::Updated(12), Some(Some("def456".to_string()))));
    assert_eq!(done[1], (Outcome::IndexFailed, None));
    assert_eq!(done[2], (Outcome::Updated(9), Some(Some("def456".to_string()))));
}

#[test]
fn whole_source_in_batches() {
    let files = vec![file("a.rs", 120), file("b.rs", 0), file("c.rs", 95)];
    let (parts, count) = index_source("github:o/r", SourceType::GitHub, &files);
    assert_eq!(count, 215);
    let sizes: Vec<usize> = parts.iter().map(|b| b.len()).collect();
    assert_eq!(sizes, vec![100, 100, 15]);
    assert_eq!(sizes.iter().sum::<usize>(), count);
    let all: Vec<&Document> = parts.iter().flatten().collect();
    assert_eq!(all[0].file_path.as_deref(), Some("a.rs"));
    assert_eq!(all[119].chunk_index, 119);
    assert_eq!(all[120].file_path.as_deref(), Some("c.rs"));
    assert_eq!(all[120].chunk_index, 0);
    assert_eq!(all[214].content, "c.rs chunk 94");
    assert!(all.iter().all(|d| d.source == "github:o/r" && d.source_type == SourceType::GitHub));
    let ids: HashSet<&str> = all.iter().map(|d| d.id.as_str()).collect();
    assert_eq!(ids.len(), 215);
}

#[test]
fn whole_source_that_fills_its_batches_or_has_nothing() {
    let (parts, count) = index_source("s", SourceType::Local, &vec![file("a", 200)]);
    assert_eq!(count, 200);
    assert_eq!(parts.len(), 2);
    let (parts, count) = index_source("s", SourceType::Local, &Vec::new());
    assert_eq!(count, 0);
    assert!(parts.is_empty());
    let (parts, count) = index_source("s", SourceType::Local, &vec![file("a", 0)]);
    assert_eq!(count, 0);
    assert!(parts.is_empty());
}

#[test]
fn files_added_together_are_files_added_one_by_one() {
    let files = vec![file("a.rs", 60), file("b.rs", 70)];
    let mut batcher = IndexBatcher::new("s", SourceType::Manual);
    assert!(batcher.add(&"x.rs".to_string(), &chunk(0)).is_none());
    let full = batcher.add_documents(&files);
    assert_eq!(full.len(), 1);
    assert_eq!(full[0][0].file_path.as_deref(), Some("x.rs"));
    assert_eq!(full[0][1].file_path.as_deref(), Some("a.rs"));
    assert_eq!(full[0][99].file_path.as_deref(), Some("b.rs"));
    assert_eq!(full[0][99].chunk_index, 38);
    let end = batcher.finish();
    assert_eq!(end.indexed, 131);
    assert_eq!(end.rest.unwrap().len(), 31);
}
