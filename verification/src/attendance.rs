//! The attendance bookkeeping done once a second while a shift runs: counting
//! work time inside the zone and giving each day one status, full attendance,
//! partial attendance or absence.

use crate::clock::Clock;
use crate::geo::{location_of, parse_location, LocationError, Square};
use crate::someapp::Someapp;
use vstd::prelude::*;

verus! {

/// The work time, the day counts and whether today counts as full, after one
/// tick.
pub struct Tally {
    pub worktime: int,
    pub full: int,
    pub partial: int,
    pub absent: int,
    pub day_full: bool,
}

impl Someapp {
    /// The shift has started by `now`: its hour has come and, within that hour,
    /// its minute; or a later hour has.
    pub open spec fn shift_started_at(self, now: Clock) -> bool {
        (now.hour == self.shiftstart.0 && now.minute >= self.shiftstart.1) || now.hour
            > self.shiftstart.0
    }

    /// `now` is the first second of the shift's last minute.
    pub open spec fn shift_ends_at(self, now: Clock) -> bool {
        now.hour == self.shiftend.0 && now.minute == self.shiftend.1 && now.second == 0
    }

    /// The work time after a second is counted where the position lies in the
    /// zone.
    pub open spec fn counted(self, inside: bool) -> int {
        if inside {
            self.worktime + 1
        } else {
            self.worktime as int
        }
    }

    /// The tick meets the requirement of a day not yet counted as full.
    pub open spec fn meets(self, inside: bool) -> bool {
        !self.day_full && self.counted(inside) == self.requiretime
    }

    /// One tick: a second of work is counted where the position lies in the
    /// zone. When the work time then meets the requirement of a day not yet
    /// counted as full, the day is counted as full and the work time starts
    /// again. At the end of the shift a day not counted as full is counted as
    /// partial attendance where work time remains and as absence where none
    /// does; then the work time starts again and a new day begins.
    pub open spec fn tick(self, inside: bool, at_end: bool) -> Tally {
        let met = self.meets(inside);
        let left: int = if met {
            0
        } else {
            self.counted(inside)
        };
        let full_now = self.day_full || met;
        Tally {
            worktime: if at_end {
                0
            } else {
                left
            },
            full: self.attan_stat.0 + if met {
                1int
            } else {
                0int
            },
            partial: self.attan_stat.1 + if at_end && !full_now && left != 0 {
                1int
            } else {
                0int
            },
            absent: self.attan_stat.2 + if at_end && !full_now && left == 0 {
                1int
            } else {
                0int
            },
            day_full: full_now && !at_end,
        }
    }

    /// No count of the tick leaves the range of a `u32`.
    pub open spec fn tick_fits(self, inside: bool, at_end: bool) -> bool {
        let t = self.tick(inside, at_end);
        &&& inside ==> self.worktime < u32::MAX
        &&& t.full <= u32::MAX
        &&& t.partial <= u32::MAX
        &&& t.absent <= u32::MAX
    }

    /// What a tick at `now` with the reported location text `loc` asks: once
    /// the shift has started, the text is not two fields of which one is no
    /// coordinate, and the counts stay in range.
    pub open spec fn can_record_at(self, zone: Square, now: Clock, loc: Seq<u8>) -> bool {
        self.shift_started_at(now) ==> match location_of(loc) {
            Ok(p) => self.tick_fits(zone.holds(p), self.shift_ends_at(now)),
            Err(LocationError::FieldCount) => true,
            Err(LocationError::BadCoordinate) => false,
        }
    }

    /// Whether the shift has started by `now`.
    pub fn shift_started(&self, now: &Clock) -> (r: bool)
        ensures
            r == self.shift_started_at(*now),
    {
        (now.hour == self.shiftstart.0 && now.minute >= self.shiftstart.1) || now.hour
            > self.shiftstart.0
    }

    /// Whether a tick with the position inside the zone or not, as `inside`
    /// says, and at the end of the shift or not, as `at_end` says, keeps every
    /// count in range.
    fn tick_fits_exec(&self, inside: bool, at_end: bool) -> (r: bool)
        ensures
            r == self.tick_fits(inside, at_end),
    {
        if inside && self.worktime == u32::MAX {
            return false;
        }
        let counted: u64 = if inside {
            self.worktime as u64 + 1
        } else {
            self.worktime as u64
        };
        let met = !self.day_full && counted == self.requiretime as u64;
        if met && self.attan_stat.0 == u32::MAX {
            return false;
        }
        if at_end && !(self.day_full || met) {
            if counted == 0 {
                self.attan_stat.2 < u32::MAX
            } else {
                self.attan_stat.1 < u32::MAX
            }
        } else {
            true
        }
    }

    /// Whether a tick at `now` with the location text `loc` can be made: see
    /// `can_record_at`.
    pub fn can_record(&self, zone: &Square, now: &Clock, loc: &[u8]) -> (r: bool)
        ensures
            r == self.can_record_at(*zone, *now, loc@),
    {
        if !self.shift_started(now) {
            return true;
        }
        match parse_location(loc) {
            Ok(p) => {
                let at_end = now.hour == self.shiftend.0 && now.minute == self.shiftend.1
                    && now.second == 0;
                self.tick_fits_exec(zone.contains(&p), at_end)
            },
            Err(LocationError::FieldCount) => true,
            Err(LocationError::BadCoordinate) => false,
        }
    }

    /// One tick of attendance at `now`, with the location text `loc` reported.
    /// Before the shift starts, or where the text is not two fields, nothing
    /// changes and `false` is returned. Otherwise the position is kept, whether
    /// it lies in `zone` is kept, the work time, the day counts and whether the
    /// day counts as full move as `tick` says, and `true` is returned.
    pub fn timelocate(&mut self, zone: &Square, now: &Clock, loc: &[u8]) -> (recorded: bool)
        requires
            old(self).can_record_at(*zone, *now, loc@),
        ensures
            recorded == (old(self).shift_started_at(*now) && location_of(loc@) is Ok),
            !recorded ==> *final(self) == *old(self),
            location_of(loc@) matches Ok(p) ==> recorded ==> {
                let t = old(self).tick(zone.holds(p), old(self).shift_ends_at(*now));
                &&& final(self).ypoint == p
                &&& final(self).contained == zone.holds(p)
                &&& final(self).worktime == t.worktime
                &&& final(self).attan_stat.0 == t.full
                &&& final(self).attan_stat.1 == t.partial
                &&& final(self).attan_stat.2 == t.absent
                &&& final(self).day_full == t.day_full
                &&& *final(self) == (Someapp {
                    ypoint: final(self).ypoint,
                    contained: final(self).contained,
                    worktime: final(self).worktime,
                    attan_stat: final(self).attan_stat,
                    day_full: final(self).day_full,
                    ..*old(self)
                })
            },
    {
        if !self.shift_started(now) {
            return false;
        }
        let position = match parse_location(loc) {
            Ok(p) => p,
            Err(_) => {
                return false;
            },
        };
        self.ypoint = position;
        self.contained = zone.contains(&position);
        if self.contained {
            self.worktime = self.worktime + 1;
        }
        if !self.day_full && self.worktime == self.requiretime {
            self.attan_stat.0 = self.attan_stat.0 + 1;
            self.worktime = 0;
            self.day_full = true;
        }
        if now.hour == self.shiftend.0 && now.minute == self.shiftend.1 && now.second == 0 {
            if !self.day_full {
                if self.worktime == 0 {
                    self.attan_stat.2 = self.attan_stat.2 + 1;
                } else {
                    self.attan_stat.1 = self.attan_stat.1 + 1;
                }
            }
            self.worktime = 0;
            self.day_full = false;
        }
        true
    }
}

/// Work time grows only inside the zone: a tick with the position outside
/// never leaves more work time than there was.
pub proof fn lemma_no_work_time_outside(app: Someapp, at_end: bool)
    ensures
        app.tick(false, at_end).worktime <= app.worktime,
{
}

/// Inside the zone, a tick that neither meets the requirement nor ends the
/// shift counts exactly one more second.
pub proof fn lemma_one_second_inside(app: Someapp)
    requires
        !app.meets(true),
    ensures
        app.tick(true, false).worktime == app.worktime + 1,
{
}

/// The day counts never fall, and each grows by at most one a tick.
pub proof fn lemma_counts_step(app: Someapp, inside: bool, at_end: bool)
    ensures
        app.attan_stat.0 <= app.tick(inside, at_end).full <= app.attan_stat.0 + 1,
        app.attan_stat.1 <= app.tick(inside, at_end).partial <= app.attan_stat.1 + 1,
        app.attan_stat.2 <= app.tick(inside, at_end).absent <= app.attan_stat.2 + 1,
{
}

/// A day of full attendance is counted exactly when the counted work time
/// meets the requirement of a day not yet counted as full; a day is counted
/// as full at most once.
pub proof fn lemma_full_day_when_met(app: Someapp, inside: bool, at_end: bool)
    ensures
        (app.tick(inside, at_end).full == app.attan_stat.0 + 1) <==> (!app.day_full
            && app.counted(inside) == app.requiretime),
        app.day_full ==> app.tick(inside, at_end).full == app.attan_stat.0,
{
}

/// Each day gets exactly one status: at the end of the shift, a day counted
/// as full (earlier or by this tick) is counted neither as partial nor as
/// absent, and any other day is counted as exactly one of the two. The work
/// time starts again and the next day is not yet full.
pub proof fn lemma_shift_end_one_status(app: Someapp, inside: bool)
    ensures
        app.tick(inside, true).worktime == 0,
        !app.tick(inside, true).day_full,
        (if app.day_full || app.meets(inside) {
            1int
        } else {
            0int
        }) + (app.tick(inside, true).partial - app.attan_stat.1) + (app.tick(inside, true).absent
            - app.attan_stat.2) == 1,
{
}

/// Before the end of the shift no day is counted as partial or absent, and a
/// day counted as full stays so.
pub proof fn lemma_no_close_before_end(app: Someapp, inside: bool)
    ensures
        app.tick(inside, false).partial == app.attan_stat.1,
        app.tick(inside, false).absent == app.attan_stat.2,
        app.day_full ==> app.tick(inside, false).day_full,
{
}

/// When the shift has started: at any hour after the start hour, whatever the
/// minute; at the start hour, from the start minute on; never before the start
/// hour.
pub proof fn lemma_shift_start_clock(app: Someapp, now: Clock)
    ensures
        now.hour > app.shiftstart.0 ==> app.shift_started_at(now),
        now.hour == app.shiftstart.0 ==> (app.shift_started_at(now) <==> now.minute
            >= app.shiftstart.1),
        now.hour < app.shiftstart.0 ==> !app.shift_started_at(now),
{
}

/// The shift ends at one second of the day: the clock's hour and minute are
/// the end hour and minute and its second is 0; at any other reading the shift
/// does not end.
pub proof fn lemma_shift_end_clock(app: Someapp, now: Clock)
    ensures
        app.shift_ends_at(now) <==> (now.hour == app.shiftend.0 && now.minute == app.shiftend.1
            && now.second == 0),
        now.minute != app.shiftend.1 ==> !app.shift_ends_at(now),
        now.hour != app.shiftend.0 ==> !app.shift_ends_at(now),
        now.second != 0 ==> !app.shift_ends_at(now),
{
}

/// A tick at any reading of the clock other than the end of the shift closes
/// no day: the counts of partial attendance and absence stay, and the work
/// time is the counted work time, or zero where the requirement of a day not
/// yet full is met by it.
pub proof fn lemma_no_close_off_end(app: Someapp, now: Clock, inside: bool)
    requires
        !(now.hour == app.shiftend.0 && now.minute == app.shiftend.1 && now.second == 0),
    ensures
        ({
            let t = app.tick(inside, app.shift_ends_at(now));
            let counted: int = if inside {
                app.worktime + 1
            } else {
                app.worktime as int
            };
            &&& t.partial == app.attan_stat.1
            &&& t.absent == app.attan_stat.2
            &&& t.worktime == (if !app.day_full && counted == app.requiretime {
                0
            } else {
                counted
            })
        }),
{
}

/// At the end of the shift a tick closes the day: the work time is zero, the
/// next day is not full, and a day neither full before nor met by this tick is
/// counted as partial attendance where work time is left and as absence where
/// none is.
pub proof fn lemma_close_at_end(app: Someapp, now: Clock, inside: bool)
    requires
        now.hour == app.shiftend.0,
        now.minute == app.shiftend.1,
        now.second == 0,
    ensures
        ({
            let t = app.tick(inside, app.shift_ends_at(now));
            let counted: int = if inside {
                app.worktime + 1
            } else {
                app.worktime as int
            };
            let full_day = app.day_full || counted == app.requiretime;
            &&& t.worktime == 0
            &&& !t.day_full
            &&& t.partial == app.attan_stat.1 + if !full_day && counted != 0 {
                1int
            } else {
                0int
            }
            &&& t.absent == app.attan_stat.2 + if !full_day && counted == 0 {
                1int
            } else {
                0int
            }
        }),
{
}

} // verus!
