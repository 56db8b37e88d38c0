use attendance::clock::Clock;
use attendance::geo::{Point, Square};
use attendance::someapp::Someapp;

fn zone() -> Square {
    Square {
        top_left: Point { lat: 11 * DEG, lng: 20 * DEG },
        bottom_right: Point { lat: 10 * DEG, lng: 21 * DEG },
    }
}

/// One degree in the library's unit, 10^-18 degree.
const DEG: i128 = 1_000_000_000_000_000_000;

const INSIDE: &[u8] = b"10.5,20.5";
const OUTSIDE: &[u8] = b"12.0,20.5";

fn at(hour: u32, minute: u32, second: u32) -> Clock {
    Clock { year: 2024, month: 6, day: 3, hour, minute, second }
}

fn shift() -> Someapp {
    let mut app = Someapp::new();
    app.shiftstart = (8, 30);
    app.shiftend = (17, 0);
    app.requiretime = 3;
    app
}

#[test]
fn shift_start_rules() {
    let app = shift();
    assert!(!app.shift_started(&at(8, 29, 59)));
    assert!(app.shift_started(&at(8, 30, 0)));
    assert!(app.shift_started(&at(8, 59, 0)));
    assert!(app.shift_started(&at(9, 0, 0)));
    assert!(!app.shift_started(&at(7, 45, 0)));
}

#[test]
fn nothing_changes_before_shift() {
    let mut app = shift();
    assert!(!app.timelocate(&zone(), &at(7, 0, 0), INSIDE));
    assert_eq!(app.worktime, 0);
    assert!(!app.contained);
    assert_eq!(app.ypoint, Point { lat: 0, lng: 0 });
    assert_eq!(app.attan_stat, (0, 0, 0));
}

#[test]
fn nothing_changes_on_one_field() {
    let mut app = shift();
    app.worktime = 2;
    assert!(!app.timelocate(&zone(), &at(17, 0, 0), b"10.5"));
    assert_eq!(app.worktime, 2);
    assert_eq!(app.attan_stat, (0, 0, 0));
}

#[test]
fn counts_seconds_inside_zone() {
    let mut app = shift();
    assert!(app.timelocate(&zone(), &at(9, 0, 1), INSIDE));
    assert_eq!(app.worktime, 1);
    assert!(app.contained);
    assert_eq!(app.ypoint, Point { lat: 105 * DEG / 10, lng: 205 * DEG / 10 });
    app.timelocate(&zone(), &at(9, 0, 2), INSIDE);
    assert_eq!(app.worktime, 2);
}

#[test]
fn no_seconds_outside_zone() {
    let mut app = shift();
    app.worktime = 1;
    assert!(app.timelocate(&zone(), &at(9, 0, 1), OUTSIDE));
    assert_eq!(app.worktime, 1);
    assert!(!app.contained);
    assert_eq!(app.ypoint, Point { lat: 12 * DEG, lng: 205 * DEG / 10 });
}

#[test]
fn meeting_requirement_counts_full_day_once() {
    let mut app = shift();
    for s in 1..4 {
        app.timelocate(&zone(), &at(9, 0, s), INSIDE);
    }
    assert_eq!(app.attan_stat, (1, 0, 0));
    assert_eq!(app.worktime, 0);
    assert!(app.day_full);
    for s in 4..10 {
        app.timelocate(&zone(), &at(9, 0, s), INSIDE);
    }
    assert_eq!(app.attan_stat, (1, 0, 0));
    assert_eq!(app.worktime, 6);
}

#[test]
fn full_day_is_neither_partial_nor_absent() {
    let mut app = shift();
    for s in 1..4 {
        app.timelocate(&zone(), &at(9, 0, s), INSIDE);
    }
    app.timelocate(&zone(), &at(17, 0, 0), OUTSIDE);
    assert_eq!(app.attan_stat, (1, 0, 0));
    assert_eq!(app.worktime, 0);
    assert!(!app.day_full);
}

#[test]
fn shift_end_with_work_counts_partial() {
    let mut app = shift();
    app.worktime = 1;
    app.timelocate(&zone(), &at(17, 0, 0), OUTSIDE);
    assert_eq!(app.attan_stat, (0, 1, 0));
    assert_eq!(app.worktime, 0);
}

#[test]
fn shift_end_without_work_counts_absence() {
    let mut app = shift();
    app.timelocate(&zone(), &at(17, 0, 0), OUTSIDE);
    assert_eq!(app.attan_stat, (0, 0, 1));
    assert_eq!(app.worktime, 0);
}

#[test]
fn shift_end_only_at_its_first_second() {
    let mut app = shift();
    app.worktime = 1;
    app.timelocate(&zone(), &at(17, 0, 1), OUTSIDE);
    assert_eq!(app.attan_stat, (0, 0, 0));
    assert_eq!(app.worktime, 1);
}

#[test]
fn requirement_met_at_shift_end_counts_full_only() {
    let mut app = shift();
    app.worktime = 2;
    app.timelocate(&zone(), &at(17, 0, 0), INSIDE);
    assert_eq!(app.attan_stat, (1, 0, 0));
    assert_eq!(app.worktime, 0);
    assert!(!app.day_full);
}

#[test]
fn next_day_can_be_full_again() {
    let mut app = shift();
    app.day_full = true;
    app.timelocate(&zone(), &at(17, 0, 0), OUTSIDE);
    assert!(!app.day_full);
    for s in 1..4 {
        app.timelocate(&zone(), &at(9, 0, s), INSIDE);
    }
    assert_eq!(app.attan_stat, (1, 0, 0));
}

#[test]
fn zero_requirement_is_met_on_first_tick() {
    let mut app = shift();
    app.requiretime = 0;
    app.timelocate(&zone(), &at(9, 0, 0), OUTSIDE);
    app.timelocate(&zone(), &at(9, 0, 1), OUTSIDE);
    assert_eq!(app.attan_stat, (1, 0, 0));
}

#[test]
fn can_record_guards() {
    let mut app = shift();
    assert!(app.can_record(&zone(), &at(9, 0, 0), INSIDE));
    assert!(app.can_record(&zone(), &at(9, 0, 0), b"one"));
    assert!(!app.can_record(&zone(), &at(9, 0, 0), b"x,20.5"));
    assert!(app.can_record(&zone(), &at(7, 0, 0), b"x,20.5"));
    app.worktime = u32::MAX;
    assert!(!app.can_record(&zone(), &at(9, 0, 0), INSIDE));
    assert!(app.can_record(&zone(), &at(9, 0, 0), OUTSIDE));
    assert!(app.can_record(&zone(), &at(7, 0, 0), INSIDE));
    let mut app = shift();
    app.attan_stat = (0, 0, u32::MAX);
    assert!(!app.can_record(&zone(), &at(17, 0, 0), OUTSIDE));
    app.day_full = true;
    assert!(app.can_record(&zone(), &at(17, 0, 0), OUTSIDE));
    app.day_full = false;
    app.worktime = 1;
    assert!(app.can_record(&zone(), &at(17, 0, 0), OUTSIDE));
    app.attan_stat = (0, u32::MAX, 0);
    assert!(!app.can_record(&zone(), &at(17, 0, 0), OUTSIDE));
    let mut app = shift();
    app.worktime = 2;
    app.attan_stat = (u32::MAX, 0, 0);
    assert!(!app.can_record(&zone(), &at(9, 0, 0), INSIDE));
}
