//! Wall-clock readings and the age that a birth date gives on a day.

use chrono::{Datelike, Timelike};
use vstd::prelude::*;

verus! {

/// A local date and time of day, as the attendance rules read them.
#[derive(Clone, Copy, Debug, PartialEq, Eq)]
pub struct Clock {
    pub year: u32,
    pub month: u32,
    pub day: u32,
    pub hour: u32,
    pub minute: u32,
    pub second: u32,
}

impl Clock {
    /// Month, day, hour, minute and second lie in their calendar ranges.
    pub open spec fn is_valid(self) -> bool {
        &&& 1 <= self.month <= 12
        &&& 1 <= self.day <= 31
        &&& self.hour < 24
        &&& self.minute < 60
        &&& self.second < 60
    }
}

/// Reads the local time through `chrono::Local::now`. Claimed of the result:
/// the month lies in 1..=12, the day in 1..=31, the hour in 0..=23 and the
/// minute and second in 0..=59, as chrono documents for `Datelike` and
/// `Timelike`. The year is chrono's `i32` year taken `as u32`; nothing is
/// claimed of which moment is read. The call takes no input; chrono panics on a
/// machine whose clock lies before 1970, which no precondition can rule out.
#[verifier::external_body]
fn read_local_clock() -> (c: Clock)
    ensures
        c.is_valid(),
{
    let now = chrono::Local::now();
    Clock {
        year: now.year() as u32,
        month: now.month(),
        day: now.day(),
        hour: now.hour(),
        minute: now.minute(),
        second: now.second(),
    }
}

/// Reads the local time.
pub fn local_now() -> (c: Clock)
    ensures
        c.is_valid(),
{
    read_local_clock()
}

/// The day and month of `today` come before those of the birth date
/// `(day, month, year)` in the calendar year.
pub open spec fn before_birthday(birth_date: (u8, u8, u32), today: Clock) -> bool {
    let month = today.month as u8;
    let day = today.day as u8;
    month < birth_date.1 || (month == birth_date.1 && day < birth_date.0)
}

/// The age in whole years on `today` of someone born on `birth_date`, or `None`
/// where that birth date lies after `today`.
pub open spec fn age_at(birth_date: (u8, u8, u32), today: Clock) -> Option<u32> {
    if birth_date.2 > today.year || (birth_date.2 == today.year && before_birthday(
        birth_date,
        today,
    )) {
        None
    } else {
        Some(
            (today.year - birth_date.2 - if before_birthday(birth_date, today) {
                1int
            } else {
                0int
            }) as u32,
        )
    }
}

/// The age on `today` of someone born on `birth_date`, a `(day, month, year)`.
pub fn age_on(birth_date: (u8, u8, u32), today: &Clock) -> (age: u32)
    requires
        age_at(birth_date, *today) is Some,
    ensures
        Some(age) == age_at(birth_date, *today),
{
    let (birth_day, birth_month, birth_year) = birth_date;
    let mut age = today.year - birth_year;
    let month = today.month as u8;
    let day = today.day as u8;
    if month < birth_month || (month == birth_month && day < birth_day) {
        age = age - 1;
    }
    age
}

/// The age on `today` of someone born on `birth_date`, a `(day, month, year)`,
/// or `None` where that birth date lies after `today`.
pub fn age_at_date(birth_date: (u8, u8, u32), today: &Clock) -> (r: Option<u32>)
    ensures
        r == age_at(birth_date, *today),
{
    let (birth_day, birth_month, birth_year) = birth_date;
    let month = today.month as u8;
    let day = today.day as u8;
    let before = month < birth_month || (month == birth_month && day < birth_day);
    if birth_year > today.year || (birth_year == today.year && before) {
        None
    } else {
        Some(age_on(birth_date, today))
    }
}

/// The age today of someone born on `birth_date`, a `(day, month, year)`, or
/// `None` where that birth date lies after today: `age_at_date` on the local
/// date read from the clock.
pub fn calculate_age(birth_date: (u8, u8, u32)) -> (r: Option<u32>)
    ensures
        exists|today: Clock| today.is_valid() && r == #[trigger] age_at(birth_date, today),
{
    let today = read_local_clock();
    age_at_date(birth_date, &today)
}

/// On a birthday the age is the number of years since the year of birth.
pub proof fn lemma_age_on_birthday(birth_date: (u8, u8, u32), today: Clock)
    requires
        today.month as u8 == birth_date.1,
        today.day as u8 == birth_date.0,
        birth_date.2 <= today.year,
    ensures
        age_at(birth_date, today) == Some((today.year - birth_date.2) as u32),
{
}

/// Before the birthday comes in a year, the age is one less than the number of
/// years since the year of birth.
pub proof fn lemma_age_before_birthday(birth_date: (u8, u8, u32), today: Clock)
    requires
        before_birthday(birth_date, today),
        birth_date.2 < today.year,
    ensures
        age_at(birth_date, today) == Some((today.year - birth_date.2 - 1) as u32),
{
}

/// The age is the number of years since the year of birth, less one exactly
/// when today's month and day come before the birth month and day in the
/// calendar; an age is given exactly when the birth date is not after today.
pub proof fn lemma_age_value(birth_date: (u8, u8, u32), today: Clock)
    ensures
        ({
            let m = today.month as u8;
            let d = today.day as u8;
            let earlier = m < birth_date.1 || (m == birth_date.1 && d < birth_date.0);
            &&& (age_at(birth_date, today) is Some) <==> (birth_date.2 < today.year || (
            birth_date.2 == today.year && !earlier))
            &&& age_at(birth_date, today) is Some ==> age_at(birth_date, today) == Some(
                (today.year - birth_date.2 - if earlier {
                    1int
                } else {
                    0int
                }) as u32,
            )
        }),
{
}

/// From the birthday on, through the rest of the birth month and the later
/// months, the age is the full number of years since the year of birth.
pub proof fn lemma_age_after_birthday(birth_date: (u8, u8, u32), today: Clock)
    requires
        birth_date.2 <= today.year,
        (today.month as u8) > birth_date.1 || (today.month as u8 == birth_date.1 && today.day as u8
            >= birth_date.0),
    ensures
        age_at(birth_date, today) == Some((today.year - birth_date.2) as u32),
{
}

} // verus!
