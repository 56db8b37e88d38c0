use attendance::clock::{age_at_date, age_on, calculate_age, local_now, Clock};

fn day(year: u32, month: u32, d: u32) -> Clock {
    Clock { year, month, day: d, hour: 12, minute: 0, second: 0 }
}

#[test]
fn age_on_birthday() {
    assert_eq!(age_on((10, 5, 2000), &day(2024, 5, 10)), 24);
}

#[test]
fn age_day_before_birthday() {
    assert_eq!(age_on((10, 5, 2000), &day(2024, 5, 9)), 23);
}

#[test]
fn age_month_before_birthday() {
    assert_eq!(age_on((10, 5, 2000), &day(2024, 4, 30)), 23);
}

#[test]
fn age_after_birthday() {
    assert_eq!(age_on((10, 5, 2000), &day(2024, 12, 1)), 24);
}

#[test]
fn age_zero_in_birth_year() {
    assert_eq!(age_on((10, 5, 2024), &day(2024, 5, 10)), 0);
    assert_eq!(age_on((10, 5, 2024), &day(2024, 6, 1)), 0);
}

#[test]
fn age_of_blank_birth_date() {
    // the registration form starts from day 0, month 0, year 0
    assert_eq!(age_on((0, 0, 0), &day(2024, 1, 1)), 2024);
}

#[test]
fn local_now_in_calendar_ranges() {
    let c = local_now();
    assert!(1 <= c.month && c.month <= 12);
    assert!(1 <= c.day && c.day <= 31);
    assert!(c.hour < 24 && c.minute < 60 && c.second < 60);
    assert!(c.year >= 2024);
}

#[test]
fn calculate_age_reads_today() {
    let now = local_now();
    let age = calculate_age((1, 1, 1900)).unwrap();
    assert!(age >= 124);
    assert!(age == now.year - 1900 || age == now.year - 1900 - 1);
}

#[test]
fn calculate_age_future_birth_is_none() {
    assert_eq!(calculate_age((1, 1, 9999)), None);
}

#[test]
fn age_at_date_values() {
    assert_eq!(age_at_date((10, 5, 2000), &day(2024, 5, 10)), Some(24));
    assert_eq!(age_at_date((10, 5, 2000), &day(2024, 5, 9)), Some(23));
    assert_eq!(age_at_date((10, 5, 2024), &day(2024, 5, 9)), None);
    assert_eq!(age_at_date((1, 1, 2025), &day(2024, 12, 31)), None);
    assert_eq!(age_at_date((10, 5, 2024), &day(2024, 5, 10)), Some(0));
}
