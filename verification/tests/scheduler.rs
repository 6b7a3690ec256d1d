use brain::scheduler::metadata::{copy_text, text_is};
use brain::scheduler::{
    check_is_due, github_metadata, github_source_name, hour_in_window, local_metadata,
    local_source_name, seconds_until_window, MetadataStore, Scheduler, SchedulerError,
    SourceMetadata,
};
use chrono::{DateTime, NaiveDate, NaiveDateTime};
use std::path::PathBuf;
use std::time::Duration;

fn at(year: i32, month: u32, day: u32, hour: u32, minute: u32, second: u32) -> NaiveDateTime {
    NaiveDate::from_ymd_opt(year, month, day).unwrap().and_hms_opt(hour, minute, second).unwrap()
}

fn scheduler(interval: u64, start: u8, end: u8, zone: &str) -> Scheduler {
    Scheduler::new(PathBuf::from("/tmp/metadata.json"), interval, start, end, zone).unwrap()
}

fn on_record(hash: Option<&str>, last_check: Option<&str>) -> SourceMetadata {
    SourceMetadata {
        source: "github:rust-lang/book".to_string(),
        source_type: "github".to_string(),
        last_commit_hash: hash.map(|h| h.to_string()),
        last_check: last_check.map(|t| t.to_string()),
        last_update: Some("2024-01-01T00:00:00+00:00".to_string()),
        owner: Some("rust-lang".to_string()),
        repo: Some("book".to_string()),
        branch: Some("main".to_string()),
        local_path: Some("/data/repos/rust-lang-book".to_string()),
    }
}

#[test]
fn window_that_does_not_wrap() {
    assert!(hour_in_window(9, 17, 9));
    assert!(!hour_in_window(9, 17, 17));
    assert!(hour_in_window(9, 17, 16));
    assert!(!hour_in_window(9, 17, 8));
    assert!(hour_in_window(9, 17, 12));
    assert!(!hour_in_window(9, 17, 0));
    assert!(!hour_in_window(9, 17, 23));
}

#[test]
fn window_that_wraps_midnight() {
    assert!(hour_in_window(22, 8, 22));
    assert!(!hour_in_window(22, 8, 8));
    assert!(hour_in_window(22, 8, 7));
    assert!(!hour_in_window(22, 8, 21));
    assert!(hour_in_window(22, 8, 23));
    assert!(hour_in_window(22, 8, 0));
    assert!(!hour_in_window(22, 8, 12));
}

#[test]
fn window_with_equal_ends_is_never_open() {
    for hour in 0..24u8 {
        assert!(!hour_in_window(5, 5, hour));
    }
}

#[test]
fn time_until_window_in_whole_hours() {
    assert_eq!(seconds_until_window(9, 17, 10), 0);
    assert_eq!(seconds_until_window(9, 17, 5), 4 * 3600);
    assert_eq!(seconds_until_window(9, 17, 17), 16 * 3600);
    assert_eq!(seconds_until_window(9, 17, 18), 15 * 3600);
    assert_eq!(seconds_until_window(9, 17, 23), 10 * 3600);
    assert_eq!(seconds_until_window(22, 8, 23), 0);
    assert_eq!(seconds_until_window(22, 8, 3), 0);
    assert_eq!(seconds_until_window(22, 8, 8), 14 * 3600);
    assert_eq!(seconds_until_window(22, 8, 10), 12 * 3600);
    assert_eq!(seconds_until_window(22, 8, 21), 3600);
    assert_eq!(seconds_until_window(5, 5, 5), 24 * 3600);
    assert_eq!(seconds_until_window(0, 0, 23), 3600);
}

#[test]
fn time_until_window_leads_to_the_opening_hour() {
    for start in 0..24u8 {
        for end in 0..24u8 {
            for hour in 0..24u8 {
                let hours = seconds_until_window(start, end, hour) / 3600;
                if hour_in_window(start, end, hour) {
                    assert_eq!(hours, 0);
                } else {
                    assert!(hours >= 1 && hours <= 24);
                    assert_eq!((hour as u64 + hours) % 24, start as u64);
                    for earlier in 1..hours {
                        assert_ne!((hour as u64 + earlier) % 24, start as u64);
                    }
                }
            }
        }
    }
}

#[test]
fn check_is_due_at_the_boundary_hour() {
    assert!(check_is_due(None, 24));
    assert!(check_is_due(Some(24), 24));
    assert!(!check_is_due(Some(23), 24));
    assert!(check_is_due(Some(25), 24));
    assert!(check_is_due(Some(0), 0));
    assert!(!check_is_due(Some(-1), 0));
    assert!(!check_is_due(Some(i64::MAX), u64::MAX));
    assert!(check_is_due(Some(i64::MAX), i64::MAX as u64));
}

#[test]
fn needs_check_by_the_clock() {
    let every_day = scheduler(24, 22, 8, "UTC");
    let record = on_record(Some("abc123"), Some("2024-01-01T00:00:00+00:00"));
    assert!(every_day.needs_check_at(&record, &at(2024, 1, 2, 0, 0, 0)));
    assert!(!every_day.needs_check_at(&record, &at(2024, 1, 1, 23, 59, 59)));
    assert!(every_day.needs_check_at(&record, &at(2024, 3, 1, 12, 0, 0)));
    assert!(!every_day.needs_check_at(&record, &at(2023, 12, 1, 0, 0, 0)));
    assert!(every_day.needs_check(&record));
}

#[test]
fn needs_check_reads_the_offset_of_the_last_check() {
    let every_two_hours = scheduler(2, 0, 0, "UTC");
    let record = on_record(Some("abc123"), Some("2024-01-01T03:00:00+03:00"));
    assert!(!every_two_hours.needs_check_at(&record, &at(2024, 1, 1, 1, 59, 59)));
    assert!(every_two_hours.needs_check_at(&record, &at(2024, 1, 1, 2, 0, 0)));
}

#[test]
fn needs_check_without_a_readable_last_check() {
    let every_day = scheduler(24, 22, 8, "UTC");
    let never = on_record(Some("abc123"), None);
    assert!(every_day.needs_check_at(&never, &at(2024, 1, 1, 0, 0, 0)));
    assert!(every_day.needs_check(&never));
    let garbled = on_record(Some("abc123"), Some("yesterday"));
    assert!(every_day.needs_check_at(&garbled, &at(2024, 1, 1, 0, 0, 0)));
    let just_now = on_record(Some("abc123"), Some("2999-01-01T00:00:00Z"));
    assert!(!every_day.needs_check(&just_now));
}

#[test]
fn has_updates_compares_fingerprints() {
    let policy = scheduler(24, 22, 8, "UTC");
    assert!(policy.has_updates(&on_record(None, None), "abc123"));
    assert!(policy.has_updates(&on_record(Some("abc123"), None), "def456"));
    assert!(!policy.has_updates(&on_record(Some("abc123"), None), "abc123"));
    assert!(on_record(Some("abc123"), None).has_changed("abc12"));
    assert!(!on_record(Some(""), None).has_changed(""));
}

#[test]
fn scheduler_wants_a_known_zone() {
    let made = Scheduler::new(PathBuf::from("m.json"), 24, 22, 8, "Mars/Phobos");
    match made {
        Err(SchedulerError::InvalidTimezone(name)) => assert_eq!(name, "Mars/Phobos"),
        Ok(_) => panic!("a zone on Mars"),
    }
    let error = SchedulerError::InvalidTimezone("Mars/Phobos".to_string());
    assert_eq!(error.message(), "Invalid timezone: Mars/Phobos");
    assert!(Scheduler::new(PathBuf::from("m.json"), 24, 22, 8, "Europe/Moscow").is_ok());
    assert!(Scheduler::new(PathBuf::from("m.json"), 24, 22, 8, "").is_err());
}

#[test]
fn scheduler_keeps_what_it_was_given() {
    let policy = scheduler(6, 22, 8, "Europe/Moscow");
    assert_eq!(policy.check_interval_hours(), 6);
    assert_eq!(policy.window_start(), 22);
    assert_eq!(policy.window_end(), 8);
    assert_eq!(policy.metadata_path(), &PathBuf::from("/tmp/metadata.json"));
}

#[test]
fn window_is_read_in_the_zone_of_the_scheduler() {
    let moscow = scheduler(24, 22, 8, "Europe/Moscow");
    assert!(moscow.is_in_window_at(&at(2024, 6, 1, 19, 30, 0)));
    assert!(!moscow.is_in_window_at(&at(2024, 6, 1, 18, 59, 59)));
    assert!(moscow.is_in_window_at(&at(2024, 6, 1, 4, 59, 0)));
    assert!(!moscow.is_in_window_at(&at(2024, 6, 1, 5, 0, 0)));
    assert_eq!(moscow.time_until_window_at(&at(2024, 6, 1, 18, 59, 59)).as_secs(), 3600);
    assert_eq!(moscow.time_until_window_at(&at(2024, 6, 1, 5, 0, 0)).as_secs(), 14 * 3600);
    assert_eq!(moscow.time_until_window_at(&at(2024, 6, 1, 20, 0, 0)), Duration::ZERO);
    assert_eq!(moscow.time_until_window_at(&at(2024, 6, 1, 5, 0, 0)).subsec_nanos(), 0);
    let new_york = scheduler(24, 9, 17, "America/New_York");
    assert!(new_york.is_in_window_at(&at(2024, 1, 15, 14, 0, 0)));
    assert!(!new_york.is_in_window_at(&at(2024, 1, 15, 13, 59, 0)));
    assert!(new_york.is_in_window_at(&at(2024, 7, 15, 13, 0, 0)));
}

#[test]
fn window_now_agrees_with_time_until_window() {
    let always = scheduler(24, 0, 24, "UTC");
    assert!(always.is_in_download_window());
    assert_eq!(always.time_until_window(), Duration::ZERO);
    let never = scheduler(24, 7, 7, "Asia/Tokyo");
    assert!(!never.is_in_download_window());
    let wait = never.time_until_window().as_secs();
    assert!(wait >= 3600 && wait <= 24 * 3600 && wait % 3600 == 0);
}

#[test]
fn names_of_sources() {
    assert_eq!(github_source_name("rust-lang", "book"), "github:rust-lang/book");
    assert_eq!(local_source_name("/home/me/notes"), "local:/home/me/notes");
    assert_eq!(github_source_name("", ""), "github:/");
}

#[test]
fn fresh_github_record() {
    let record = github_metadata(
        "rust-lang",
        "book",
        "main",
        "/data/repos/rust-lang-book",
        "abc123".to_string(),
        "2024-05-05T10:00:00+00:00".to_string(),
    );
    assert_eq!(record.source, "github:rust-lang/book");
    assert_eq!(record.source_type, "github");
    assert_eq!(record.last_commit_hash.as_deref(), Some("abc123"));
    assert_eq!(record.last_check.as_deref(), Some("2024-05-05T10:00:00+00:00"));
    assert_eq!(record.last_update.as_deref(), Some("2024-05-05T10:00:00+00:00"));
    assert_eq!(record.owner.as_deref(), Some("rust-lang"));
    assert_eq!(record.repo.as_deref(), Some("book"));
    assert_eq!(record.branch.as_deref(), Some("main"));
    assert_eq!(record.local_path.as_deref(), Some("/data/repos/rust-lang-book"));
}

#[test]
fn fresh_local_record() {
    let record = local_metadata("/home/me/notes", "2024-05-05T10:00:00+00:00".to_string());
    assert_eq!(record.source, "local:/home/me/notes");
    assert_eq!(record.source_type, "local");
    assert_eq!(record.last_commit_hash, None);
    assert_eq!(record.last_check.as_deref(), Some("2024-05-05T10:00:00+00:00"));
    assert_eq!(record.last_update.as_deref(), Some("2024-05-05T10:00:00+00:00"));
    assert_eq!(record.owner, None);
    assert_eq!(record.repo, None);
    assert_eq!(record.branch, None);
    assert_eq!(record.local_path.as_deref(), Some("/home/me/notes"));
}

#[test]
fn records_made_by_the_clock() {
    let policy = scheduler(24, 22, 8, "UTC");
    let record = policy.create_github_metadata("o", "r", "dev", "/p", "f00".to_string());
    assert_eq!(record.source, "github:o/r");
    assert_eq!(record.last_commit_hash.as_deref(), Some("f00"));
    assert_eq!(record.branch.as_deref(), Some("dev"));
    assert_eq!(record.last_check, record.last_update);
    assert!(DateTime::parse_from_rfc3339(record.last_check.as_deref().unwrap()).is_ok());
    assert!(!policy.needs_check(&record));
    let local = policy.create_local_metadata("/notes");
    assert_eq!(local.source, "local:/notes");
    assert_eq!(local.last_commit_hash, None);
    assert!(DateTime::parse_from_rfc3339(local.last_update.as_deref().unwrap()).is_ok());
}

#[test]
fn record_check_touches_the_time_of_the_check_only() {
    let mut record = on_record(Some("abc123"), Some("2024-01-01T00:00:00+00:00"));
    record.record_check("2024-02-02T00:00:00+00:00".to_string());
    assert_eq!(record.last_check.as_deref(), Some("2024-02-02T00:00:00+00:00"));
    assert_eq!(record.last_commit_hash.as_deref(), Some("abc123"));
    assert_eq!(record.last_update.as_deref(), Some("2024-01-01T00:00:00+00:00"));
    assert_eq!(record.source, "github:rust-lang/book");
    assert_eq!(record.branch.as_deref(), Some("main"));
}

#[test]
fn record_refresh_sets_fingerprint_and_both_times() {
    let mut record = on_record(Some("abc123"), None);
    record.record_refresh("def456".to_string(), "2024-02-02T00:00:00+00:00".to_string());
    assert_eq!(record.last_commit_hash.as_deref(), Some("def456"));
    assert_eq!(record.last_check.as_deref(), Some("2024-02-02T00:00:00+00:00"));
    assert_eq!(record.last_update.as_deref(), Some("2024-02-02T00:00:00+00:00"));
    assert_eq!(record.owner.as_deref(), Some("rust-lang"));
    assert_eq!(record.local_path.as_deref(), Some("/data/repos/rust-lang-book"));
}

#[test]
fn updates_by_the_clock() {
    let policy = scheduler(1, 22, 8, "UTC");
    let mut record = on_record(Some("abc123"), Some("2000-01-01T00:00:00+00:00"));
    assert!(policy.needs_check(&record));
    policy.update_check_time(&mut record);
    assert!(!policy.needs_check(&record));
    assert_eq!(record.last_commit_hash.as_deref(), Some("abc123"));
    assert_eq!(record.last_update.as_deref(), Some("2024-01-01T00:00:00+00:00"));
    policy.update_after_refresh(&mut record, "def456".to_string());
    assert_eq!(record.last_commit_hash.as_deref(), Some("def456"));
    assert_eq!(record.last_check, record.last_update);
    assert!(DateTime::parse_from_rfc3339(record.last_update.as_deref().unwrap()).is_ok());
    assert!(!policy.has_updates(&record, "def456"));
}

#[test]
fn copies_of_records() {
    let record = on_record(Some("abc123"), None);
    let copy = record.clone();
    assert_eq!(copy.source, record.source);
    assert_eq!(copy.last_commit_hash, record.last_commit_hash);
    assert_eq!(copy.last_check, None);
    assert_eq!(copy.local_path, record.local_path);
    assert_eq!(copy_text(&Some("x".to_string())), Some("x".to_string()));
    assert_eq!(copy_text(&None), None);
    assert!(text_is(&Some("x".to_string()), "x"));
    assert!(!text_is(&Some("x".to_string()), "y"));
    assert!(!text_is(&None, ""));
}

#[test]
fn store_finds_what_was_put_in() {
    let mut store = MetadataStore::new();
    assert!(store.is_empty());
    assert!(store.get("github:rust-lang/book").is_none());
    store.upsert(on_record(Some("abc123"), None));
    assert_eq!(store.len(), 1);
    let found = store.get("github:rust-lang/book").unwrap();
    assert_eq!(found.last_commit_hash.as_deref(), Some("abc123"));
    assert!(store.get("github:rust-lang/boo").is_none());
    assert!(store.get("").is_none());
}

#[test]
fn store_replaces_the_record_of_a_source() {
    let mut store = MetadataStore::default();
    store.upsert(on_record(Some("abc123"), None));
    store.upsert(local_metadata("/notes", "2024-05-05T10:00:00+00:00".to_string()));
    store.upsert(on_record(Some("def456"), Some("2024-01-01T00:00:00+00:00")));
    assert_eq!(store.len(), 2);
    assert!(!store.is_empty());
    let found = store.get("github:rust-lang/book").unwrap();
    assert_eq!(found.last_commit_hash.as_deref(), Some("def456"));
    assert_eq!(store.get("local:/notes").unwrap().source_type, "local");
    assert_eq!(store.entry(0).source, "github:rust-lang/book");
    assert_eq!(store.entry(0).last_commit_hash.as_deref(), Some("def456"));
    assert_eq!(store.entry(1).source, "local:/notes");
}

#[test]
fn window_hour_follows_the_zone_and_the_moment() {
    let noon = at(2024, 3, 10, 12, 0, 0);
    for (zone, hour) in [("UTC", 12u8), ("Asia/Tokyo", 21), ("America/Los_Angeles", 5)] {
        for start in 0..24u8 {
            let policy = scheduler(24, start, (start + 1) % 24, zone);
            assert_eq!(policy.is_in_window_at(&noon), start == hour);
            let wait = (hour_distance(hour, start) as u64) * 3600;
            assert_eq!(policy.time_until_window_at(&noon).as_secs(), wait);
        }
    }
}

fn hour_distance(from: u8, to: u8) -> u8 {
    (to + 24 - from) % 24
}

#[test]
fn needs_check_counts_whole_hours_from_the_moment_read() {
    let record = on_record(Some("abc123"), Some("2024-01-01T10:30:00+00:00"));
    for interval in 0..6u64 {
        let policy = scheduler(interval, 0, 0, "UTC");
        for minutes in [0u32, 29, 30, 59] {
            for hours in 10..16u32 {
                let now = at(2024, 1, 1, hours, minutes, 0);
                let elapsed = (hours as i64 * 60 + minutes as i64 - 630).div_euclid(60);
                let whole = if hours as i64 * 60 + (minutes as i64) < 630 {
                    -((630 - hours as i64 * 60 - minutes as i64) / 60)
                } else {
                    elapsed
                };
                assert_eq!(policy.needs_check_at(&record, &now), whole >= interval as i64);
            }
        }
    }
}
