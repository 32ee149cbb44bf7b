use timer::calendar::DateSnapshot;
use timer::duration::parse_duration;
use timer::jobstore::JobStore;
use timer::scheduler::{command_outcome, extract_job_id, schedule_clock_time};
use timer::AtError;

fn snapshot_at(h: u32, m: u32, s: u32) -> DateSnapshot {
    DateSnapshot { year: 2026, month: 1, day: 1, weekday: 4, hour: h, minute: m, second: s }
}

#[test]
fn job_id_from_single_line_listing() {
    let id = extract_job_id("42\tThu Jan 1 00:00:00 2026 a user").unwrap();
    assert_eq!(id, "42");
}

#[test]
fn job_id_from_last_line() {
    let listing = "7\tWed Dec 31 23:00:00 2025 a user\n42\tThu Jan 1 00:00:00 2026 a user\n";
    assert_eq!(extract_job_id(listing).unwrap(), "42");
}

#[test]
fn job_id_extraction_fails_on_empty_listing() {
    assert!(matches!(extract_job_id(""), Err(AtError::ParseError(_))));
}

#[test]
fn job_id_extraction_fails_on_blank_last_line() {
    assert!(matches!(extract_job_id("42\tsomething\n \t \n"), Err(AtError::ParseError(_))));
}

#[test]
fn job_id_skips_leading_whitespace() {
    assert_eq!(extract_job_id("  17 Sat Feb 7 10:00:00 2026 a user").unwrap(), "17");
}

#[test]
fn command_outcome_passes_success() {
    assert!(command_outcome(true, "").is_ok());
}

#[test]
fn command_outcome_carries_stderr() {
    match command_outcome(false, "boom") {
        Err(AtError::CommandError(m)) => {
            assert_eq!(m, "boom");
        },
        other => panic!("expected a command error, got {other:?}"),
    }
    match command_outcome(false, "boom") {
        Err(e) => assert_eq!(e.message(), "Command error: boom"),
        Ok(_) => unreachable!(),
    }
}

#[test]
fn schedule_time_adds_offset_to_clock() {
    let d = parse_duration("00:00:05").unwrap();
    let t = schedule_clock_time(&snapshot_at(10, 59, 58), &d);
    assert_eq!(t, "11:00");
    let t = schedule_clock_time(&snapshot_at(10, 59, 54), &d);
    assert_eq!(t, "10:59");
}

#[test]
fn schedule_time_wraps_at_midnight() {
    let d = parse_duration("00:00:05").unwrap();
    assert_eq!(schedule_clock_time(&snapshot_at(23, 59, 59), &d), "00:00");
    let d = parse_duration("25:00:00").unwrap();
    assert_eq!(schedule_clock_time(&snapshot_at(1, 30, 0), &d), "02:30");
}

#[test]
fn io_error_message_text() {
    let e = AtError::IoError(String::from("disk full"));
    assert_eq!(e.message(), "I/O error: disk full");
    let e = AtError::ParseError(String::from("bad listing"));
    assert_eq!(e.message(), "Parse error: bad listing");
}

#[test]
fn job_store_saves_and_loads() {
    let mut store = JobStore::new();
    assert!(store.load().is_none());
    store.save(String::from("42"));
    assert_eq!(store.load().unwrap(), "42");
}

#[test]
fn job_store_overwrites_not_appends() {
    let mut store = JobStore::new();
    store.save(String::from("42"));
    store.save(String::from("43"));
    assert_eq!(store.load().unwrap(), "43");
}

#[test]
fn job_store_clear_removes_record() {
    let mut store = JobStore::new();
    store.save(String::from("42"));
    store.clear();
    assert!(store.load().is_none());
}

#[test]
fn job_store_restores_persisted_record() {
    let store = JobStore::restore(Some(String::from("9")));
    assert_eq!(store.load().unwrap(), "9");
    let store = JobStore::restore(None);
    assert!(store.load().is_none());
}
