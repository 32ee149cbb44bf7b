use timer::calendar::{
    calendar_cells, days_in_month, is_leap_year, now_snapshot, week_bar, weekday_name,
    DateSnapshot,
};

fn snapshot(year: i32, month: u32, day: u32, weekday: u32, h: u32, m: u32, s: u32) -> DateSnapshot {
    DateSnapshot { year, month, day, weekday, hour: h, minute: m, second: s }
}

#[test]
fn leap_year_concrete_cases() {
    assert!(is_leap_year(2000));
    assert!(!is_leap_year(1900));
    assert!(is_leap_year(2024));
    assert!(!is_leap_year(2023));
}

#[test]
fn leap_year_more_cases() {
    assert!(is_leap_year(400));
    assert!(!is_leap_year(100));
    assert!(is_leap_year(4));
    assert!(!is_leap_year(1));
    assert!(is_leap_year(0));
    assert!(is_leap_year(-4));
    assert!(!is_leap_year(-100));
    assert!(is_leap_year(-400));
}

#[test]
fn days_in_month_table() {
    assert_eq!(days_in_month(2, true), 29);
    assert_eq!(days_in_month(2, false), 28);
    assert_eq!(days_in_month(4, true), 30);
    assert_eq!(days_in_month(4, false), 30);
    assert_eq!(days_in_month(1, true), 31);
    assert_eq!(days_in_month(1, false), 31);
    let table = [31, 28, 31, 30, 31, 30, 31, 31, 30, 31, 30, 31];
    for month in 1..=12u32 {
        assert_eq!(days_in_month(month, false), table[(month - 1) as usize]);
        let leap_days = if month == 2 { 29 } else { table[(month - 1) as usize] };
        assert_eq!(days_in_month(month, true), leap_days);
    }
}

#[test]
fn first_weekday_from_snapshot() {
    // The 15th on a Sunday puts the 1st on a Sunday too.
    let snap = snapshot(2024, 9, 15, 0, 12, 0, 0);
    assert_eq!(snap.first_weekday_of_month(), 0);
    // Day 1 itself: the first weekday is the snapshot's weekday.
    let snap = snapshot(2024, 8, 1, 4, 0, 0, 0);
    assert_eq!(snap.first_weekday_of_month(), 4);
    // October 11, 2026 is a Sunday, so October 1, 2026 is a Thursday.
    let snap = snapshot(2026, 10, 11, 0, 9, 30, 0);
    assert_eq!(snap.first_weekday_of_month(), 4);
    assert_eq!(weekday_name(snap.first_weekday_of_month()), "Thu");
}

#[test]
fn days_in_current_month_uses_leap_rule() {
    let feb_leap = snapshot(2024, 2, 10, 6, 0, 0, 0);
    assert_eq!(feb_leap.days_in_current_month(), 29);
    let feb_plain = snapshot(2023, 2, 10, 5, 0, 0, 0);
    assert_eq!(feb_plain.days_in_current_month(), 28);
}

#[test]
fn week_bar_names_all_seven_days() {
    assert_eq!(week_bar(), "Sun Mon Tue Wed Thu Fri Sat ");
}

#[test]
fn weekday_names() {
    let names = ["Sun", "Mon", "Tue", "Wed", "Thu", "Fri", "Sat"];
    for w in 0..7u32 {
        assert_eq!(weekday_name(w), names[w as usize]);
    }
}

#[test]
fn calendar_cells_layout() {
    let cells = calendar_cells(3, 31);
    assert_eq!(cells.len(), 34);
    assert_eq!(&cells[0..3], &[0, 0, 0]);
    for d in 1..=31u32 {
        assert_eq!(cells[(3 + d - 1) as usize], d);
    }
    let cells = calendar_cells(0, 28);
    assert_eq!(cells.len(), 28);
    assert_eq!(cells[0], 1);
    assert_eq!(cells[27], 28);
}

#[test]
fn seconds_of_day_concrete() {
    let snap = snapshot(2024, 1, 1, 1, 10, 59, 58);
    assert_eq!(snap.seconds_of_day(), 10 * 3600 + 59 * 60 + 58);
}

#[test]
fn now_snapshot_fields_in_range() {
    let snap = now_snapshot();
    assert!((1..=12).contains(&snap.month));
    assert!((1..=31).contains(&snap.day));
    assert!(snap.weekday < 7);
    assert!(snap.hour < 24);
    assert!(snap.minute < 60);
    assert!(snap.second < 60);
    // The capture is a real date, so its day fits its month.
    assert!(snap.day <= snap.days_in_current_month());
}
