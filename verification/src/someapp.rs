//! The state of a desktop session: who is signed in, the profile shown, the
//! department's work zone, the attendance tally and which window and page are
//! open; and how the session answers what the user does.

use crate::geo::{coordinate_of, parse_coordinate, Point, Square};
use vstd::prelude::*;
use vstd::utf8::encode_utf8;

verus! {

/// The session.
#[derive(Debug)]
pub struct Someapp {
    pub username: String,
    pub password: String,
    pub name: String,
    pub last_name: String,
    pub age: u32,
    /// Day, month and year of birth.
    pub birth_data: (u8, u8, u32),
    pub department: String,
    /// The role: `Employee` or `Employer`.
    pub login_string: String,
    /// The login window is open.
    pub login_true: bool,
    /// The registration window is open.
    pub register_true: bool,
    /// Someone is signed in.
    pub login_c: bool,
    /// The message that the open window shows.
    pub stat_string: String,
    /// The profile picked on the profiles page.
    pub stat_keep: Vec<Person>,
    /// The employee picked on the attendance page.
    pub stat_keep1: Vec<Person>,
    /// Hour and minute at which the shift starts.
    pub shiftstart: (u32, u32),
    /// Hour and minute at which the shift ends.
    pub shiftend: (u32, u32),
    /// The work time a day asks for.
    pub requiretime: u32,
    /// The work time counted so far, in ticks of one second.
    pub worktime: u32,
    /// Today has already been counted as a day of full attendance.
    pub day_full: bool,
    /// Top-left corner of the department's zone, in units of 10^-18 degree,
    /// and the two texts it is entered as.
    pub top: (i128, i128, String, String),
    /// Bottom-right corner of the zone, likewise.
    pub low: (i128, i128, String, String),
    /// Days of full attendance, of partial attendance and of absence.
    pub attan_stat: (u32, u32, u32),
    /// The page: 1 attendance, 2 profiles, 3 one profile.
    pub ui_page: u8,
    /// The attendance page: 1 zone setup, 2 employee list, 3 one employee.
    pub ui_page_attan: u8,
    /// The position last reported.
    pub ypoint: Point,
    /// The position last reported lies in the zone.
    pub contained: bool,
}

/// The bytes of a text.
pub open spec fn text_bytes(s: String) -> Seq<u8> {
    encode_utf8(s@)
}

/// What the login window does with the answer to a sign-in.
pub open spec fn login_message_error() -> Seq<char> {
    "Error1"@
}

pub open spec fn login_message_mismatch() -> Seq<char> {
    "Username or Password is incorrect or Your assigned role not match"@
}

/// What the user does to the login and registration windows.
#[derive(Clone, Copy, Debug, PartialEq, Eq)]
pub enum WindowEvent {
    /// The `Login` button.
    LoginClicked,
    /// The `Register` button.
    RegisterClicked,
    /// A sign-in was checked, with the code of its answer where there is one.
    LoginAnswered(Option<u8>),
    /// A registration was stored, or failed.
    Registered(bool),
}

/// Which of the login and registration windows are open after `ev`.
pub open spec fn windows_after(login: bool, register: bool, ev: WindowEvent) -> (bool, bool) {
    match ev {
        WindowEvent::LoginClicked => (!login, false),
        WindowEvent::RegisterClicked => (false, !register),
        WindowEvent::LoginAnswered(code) => if code == Some(0u8) && login {
            (false, register)
        } else {
            (login, register)
        },
        WindowEvent::Registered(ok) => if ok {
            (true, false)
        } else {
            (login, register)
        },
    }
}

/// The outcome of looking up a username, password and role.
#[derive(Clone, Copy, Debug, PartialEq, Eq)]
pub enum LoginLookup {
    /// A stored account matches.
    Found,
    /// No stored account matches.
    NotFound,
    /// The lookup itself failed.
    Failed,
}

/// The code of a sign-in answer: 0 when an account matches, 2 when none does,
/// 1 when the lookup failed.
pub fn login_code(lookup: LoginLookup) -> (code: u8)
    ensures
        lookup == LoginLookup::Found ==> code == 0,
        lookup == LoginLookup::NotFound ==> code == 2,
        lookup == LoginLookup::Failed ==> code == 1,
{
    match lookup {
        LoginLookup::Found => 0,
        LoginLookup::NotFound => 2,
        LoginLookup::Failed => 1,
    }
}

/// One person's record, as the profile and attendance lists show it.
#[derive(Debug)]
pub struct Person {
    pub username: String,
    pub password: String,
    pub name: String,
    pub last_name: String,
    pub age: u32,
    /// Day, month and year of birth.
    pub birth_data: (u8, u8, u32),
    pub department: String,
    /// The role: `Employee` or `Employer`.
    pub login_string: String,
    /// Days of full attendance, of partial attendance and of absence.
    pub attan_stat: (u32, u32, u32),
    pub shiftstart: (u32, u32),
    pub shiftend: (u32, u32),
    pub requiretime: u32,
    pub worktime: u32,
}

impl Clone for Person {
    fn clone(&self) -> (r: Self)
        ensures
            r == *self,
    {
        Person {
            username: self.username.clone(),
            password: self.password.clone(),
            name: self.name.clone(),
            last_name: self.last_name.clone(),
            age: self.age,
            birth_data: self.birth_data,
            department: self.department.clone(),
            login_string: self.login_string.clone(),
            attan_stat: self.attan_stat,
            shiftstart: self.shiftstart,
            shiftend: self.shiftend,
            requiretime: self.requiretime,
            worktime: self.worktime,
        }
    }
}

impl Someapp {
    /// Nothing entered, nothing open, nothing counted.
    pub open spec fn is_blank(self) -> bool {
        &&& self.username@ == Seq::<char>::empty()
        &&& self.password@ == Seq::<char>::empty()
        &&& self.name@ == Seq::<char>::empty()
        &&& self.last_name@ == Seq::<char>::empty()
        &&& self.age == 0
        &&& self.birth_data == (0u8, 0u8, 0u32)
        &&& self.department@ == Seq::<char>::empty()
        &&& self.login_string@ == Seq::<char>::empty()
        &&& !self.login_true
        &&& !self.register_true
        &&& !self.login_c
        &&& self.stat_string@ == Seq::<char>::empty()
        &&& self.stat_keep@.len() == 0
        &&& self.stat_keep1@.len() == 0
        &&& self.shiftstart == (0u32, 0u32)
        &&& self.shiftend == (0u32, 0u32)
        &&& self.requiretime == 0
        &&& self.worktime == 0
        &&& !self.day_full
        &&& self.top.0 == 0 && self.top.1 == 0
        &&& self.top.2@ == Seq::<char>::empty() && self.top.3@ == Seq::<char>::empty()
        &&& self.low.0 == 0 && self.low.1 == 0
        &&& self.low.2@ == Seq::<char>::empty() && self.low.3@ == Seq::<char>::empty()
        &&& self.attan_stat == (0u32, 0u32, 0u32)
        &&& self.ui_page == 0
        &&& self.ui_page_attan == 0
        &&& self.ypoint == Point { lat: 0, lng: 0 }
        &&& !self.contained
    }

    /// A blank session.
    pub fn new() -> (app: Someapp)
        ensures
            app.is_blank(),
    {
        Someapp {
            username: String::new(),
            password: String::new(),
            name: String::new(),
            last_name: String::new(),
            age: 0,
            birth_data: (0, 0, 0),
            department: String::new(),
            login_string: String::new(),
            login_true: false,
            register_true: false,
            login_c: false,
            stat_string: String::new(),
            stat_keep: Vec::new(),
            stat_keep1: Vec::new(),
            shiftstart: (0, 0),
            shiftend: (0, 0),
            requiretime: 0,
            worktime: 0,
            day_full: false,
            top: (0, 0, String::new(), String::new()),
            low: (0, 0, String::new(), String::new()),
            attan_stat: (0, 0, 0),
            ui_page: 0,
            ui_page_attan: 0,
            ypoint: Point { lat: 0, lng: 0 },
            contained: false,
        }
    }
}


/// What the attendance list says of the signed-in person's position.
#[derive(Clone, Copy, Debug, PartialEq, Eq)]
pub enum WorkStatus {
    /// In the zone: work time is being counted.
    Counting,
    /// A shift is set and the position lies outside the zone.
    OutOfArea,
    /// No shift is set and the position lies outside the zone.
    NotCounting,
}

impl Someapp {
    /// The profile fields hold nothing: the texts are empty, the numbers zero.
    pub open spec fn profile_is_clear(self) -> bool {
        &&& self.username@ == Seq::<char>::empty()
        &&& self.password@ == Seq::<char>::empty()
        &&& self.name@ == Seq::<char>::empty()
        &&& self.last_name@ == Seq::<char>::empty()
        &&& self.age == 0
        &&& self.birth_data == (0u8, 0u8, 0u32)
        &&& self.department@ == Seq::<char>::empty()
        &&& self.login_string@ == Seq::<char>::empty()
        &&& self.top.0 == 0 && self.top.1 == 0
        &&& self.top.2@ == Seq::<char>::empty() && self.top.3@ == Seq::<char>::empty()
        &&& self.low.0 == 0 && self.low.1 == 0
        &&& self.low.2@ == Seq::<char>::empty() && self.low.3@ == Seq::<char>::empty()
    }

    /// `other` differs from `self` at most in its profile fields.
    pub open spec fn same_but_profile(self, other: Someapp) -> bool {
        other == (Someapp {
            username: other.username,
            password: other.password,
            name: other.name,
            last_name: other.last_name,
            age: other.age,
            birth_data: other.birth_data,
            department: other.department,
            login_string: other.login_string,
            top: other.top,
            low: other.low,
            ..self
        })
    }

    /// `other` differs from `self` at most in its windows, its sign-in and its
    /// message.
    pub open spec fn same_but_windows(self, other: Someapp) -> bool {
        other == (Someapp {
            login_true: other.login_true,
            register_true: other.register_true,
            login_c: other.login_c,
            stat_string: other.stat_string,
            ..self
        })
    }

    /// Clears the profile that was entered or loaded.
    pub fn reset(&mut self)
        ensures
            final(self).profile_is_clear(),
            old(self).same_but_profile(*final(self)),
    {
        self.username = String::new();
        self.password = String::new();
        self.name = String::new();
        self.last_name = String::new();
        self.age = 0;
        self.birth_data = (0, 0, 0);
        self.department = String::new();
        self.login_string = String::new();
        self.top.0 = 0;
        self.top.1 = 0;
        self.top.2 = String::new();
        self.top.3 = String::new();
        self.low.0 = 0;
        self.low.1 = 0;
        self.low.2 = String::new();
        self.low.3 = String::new();
    }

    /// Shows the profile of the signed-in person as stored: the texts, the age,
    /// the birth date and the day counts are taken from `stored`.
    pub fn take_profile(&mut self, stored: Person)
        ensures
            final(self).username == stored.username,
            final(self).password == stored.password,
            final(self).name == stored.name,
            final(self).last_name == stored.last_name,
            final(self).age == stored.age,
            final(self).birth_data == stored.birth_data,
            final(self).department == stored.department,
            final(self).login_string == stored.login_string,
            final(self).attan_stat == stored.attan_stat,
            *final(self) == (Someapp {
                username: final(self).username,
                password: final(self).password,
                name: final(self).name,
                last_name: final(self).last_name,
                age: final(self).age,
                birth_data: final(self).birth_data,
                department: final(self).department,
                login_string: final(self).login_string,
                attan_stat: final(self).attan_stat,
                ..*old(self)
            }),
    {
        self.username = stored.username;
        self.password = stored.password;
        self.name = stored.name;
        self.last_name = stored.last_name;
        self.age = stored.age;
        self.birth_data = stored.birth_data;
        self.department = stored.department;
        self.login_string = stored.login_string;
        self.attan_stat = stored.attan_stat;
    }

    /// Takes the corners of the department's zone as stored; the texts they
    /// were entered as stay.
    pub fn take_zone(&mut self, stored: Square)
        ensures
            final(self).top == (stored.top_left.lat, stored.top_left.lng, old(self).top.2, old(self).top.3),
            final(self).low == (stored.bottom_right.lat, stored.bottom_right.lng, old(self).low.2, old(self).low.3),
            *final(self) == (Someapp { top: final(self).top, low: final(self).low, ..*old(self) }),
    {
        self.top.0 = stored.top_left.lat;
        self.top.1 = stored.top_left.lng;
        self.low.0 = stored.bottom_right.lat;
        self.low.1 = stored.bottom_right.lng;
    }

    /// Signs out: the profile is cleared and nobody is signed in.
    pub fn log_out(&mut self)
        ensures
            final(self).profile_is_clear(),
            !final(self).login_c,
            (Someapp { login_c: old(self).login_c, ..*final(self) }).same_but_profile(*old(self)),
    {
        self.reset();
        self.login_c = false;
    }

    /// The `Login` button: opens the login window, or closes it where it is
    /// open, and closes the registration window, clearing its message.
    pub fn click_login(&mut self)
        ensures
            (final(self).login_true, final(self).register_true) == windows_after(
                old(self).login_true,
                old(self).register_true,
                WindowEvent::LoginClicked,
            ),
            final(self).login_c == old(self).login_c,
            old(self).register_true ==> final(self).stat_string@ == Seq::<char>::empty(),
            !old(self).register_true ==> final(self).stat_string == old(self).stat_string,
            old(self).same_but_windows(*final(self)),
    {
        self.login_true = !self.login_true;
        if self.register_true {
            self.register_true = false;
            self.stat_string = String::new();
        }
    }

    /// The `Register` button: opens the registration window, or closes it where
    /// it is open, and closes the login window, clearing its message.
    pub fn click_register(&mut self)
        ensures
            (final(self).login_true, final(self).register_true) == windows_after(
                old(self).login_true,
                old(self).register_true,
                WindowEvent::RegisterClicked,
            ),
            final(self).login_c == old(self).login_c,
            old(self).login_true ==> final(self).stat_string@ == Seq::<char>::empty(),
            !old(self).login_true ==> final(self).stat_string == old(self).stat_string,
            old(self).same_but_windows(*final(self)),
    {
        self.register_true = !self.register_true;
        if self.login_true {
            self.login_true = false;
            self.stat_string = String::new();
        }
    }

    /// Takes the answer to a sign-in, the code of `login_code`, or `None` where
    /// the lookup could not be made: with code 0 and the login window open, the
    /// window closes and the user is signed in; codes 1 and 2 leave a message.
    pub fn answer_login(&mut self, code: Option<u8>)
        ensures
            (final(self).login_true, final(self).register_true) == windows_after(
                old(self).login_true,
                old(self).register_true,
                WindowEvent::LoginAnswered(code),
            ),
            final(self).login_c == (old(self).login_c || (code == Some(0u8) && old(self).login_true)),
            code == Some(1u8) ==> final(self).stat_string@ == login_message_error(),
            code == Some(2u8) ==> final(self).stat_string@ == login_message_mismatch(),
            code != Some(1u8) && code != Some(2u8) ==> final(self).stat_string == old(self).stat_string,
            old(self).same_but_windows(*final(self)),
    {
        match code {
            Some(0u8) => {
                if self.login_true {
                    self.login_true = false;
                    self.login_c = true;
                }
            },
            Some(1u8) => {
                self.stat_string = "Error1".to_owned();
            },
            Some(2u8) => {
                self.stat_string =
                    "Username or Password is incorrect or Your assigned role not match".to_owned();
            },
            _ => {},
        }
    }

    /// Takes the outcome of storing a registration: on success the login window
    /// opens in place of the registration window; on failure its message shows.
    pub fn answer_registration(&mut self, result: Result<(), String>)
        ensures
            (final(self).login_true, final(self).register_true) == windows_after(
                old(self).login_true,
                old(self).register_true,
                WindowEvent::Registered(result is Ok),
            ),
            final(self).login_c == old(self).login_c,
            result matches Err(message) ==> final(self).stat_string == message,
            result is Ok ==> final(self).stat_string == old(self).stat_string,
            old(self).same_but_windows(*final(self)),
    {
        match result {
            Ok(()) => {
                self.login_true = true;
                self.register_true = false;
            },
            Err(message) => {
                self.stat_string = message;
            },
        }
    }

    /// Some corner coordinate of the zone is zero: the zone has not been set.
    pub open spec fn zone_unset(self) -> bool {
        self.top.0 == 0 || self.top.1 == 0 || self.low.0 == 0 || self.low.1 == 0
    }

    /// The department's work zone, from its two corners.
    pub fn zone(&self) -> (z: Square)
        ensures
            z == (Square {
                top_left: Point { lat: self.top.0, lng: self.top.1 },
                bottom_right: Point { lat: self.low.0, lng: self.low.1 },
            }),
    {
        Square {
            top_left: Point { lat: self.top.0, lng: self.top.1 },
            bottom_right: Point { lat: self.low.0, lng: self.low.1 },
        }
    }

    /// Whether some corner coordinate of the zone is zero.
    pub fn location_unset(&self) -> (r: bool)
        ensures
            r == self.zone_unset(),
    {
        self.top.0 == 0 || self.top.1 == 0 || self.low.0 == 0 || self.low.1 == 0
    }

    /// Opens the attendance page: its zone setup where the zone is unset, else
    /// the employee list, unless one employee is already shown.
    pub fn attendance_page(&mut self)
        ensures
            final(self).ui_page_attan == (if old(self).zone_unset() {
                1u8
            } else if old(self).ui_page_attan != 3 {
                2u8
            } else {
                3u8
            }),
            *final(self) == (Someapp { ui_page_attan: final(self).ui_page_attan, ..*old(self) }),
    {
        if self.location_unset() {
            self.ui_page_attan = 1;
        } else if self.ui_page_attan != 3 {
            self.ui_page_attan = 2;
        }
    }

    /// Opens the page numbered `page`: 1 attendance, 2 profiles.
    pub fn open_page(&mut self, page: u8)
        ensures
            *final(self) == (Someapp { ui_page: page, ..*old(self) }),
    {
        self.ui_page = page;
    }

    /// Shows the profiles page: no profile is picked.
    pub fn profiles_page(&mut self)
        ensures
            final(self).stat_keep@.len() == 0,
            *final(self) == (Someapp { stat_keep: final(self).stat_keep, ..*old(self) }),
    {
        self.stat_keep.clear();
    }

    /// Shows `person` on a page of its own, from the profiles page: it becomes
    /// the one profile picked.
    pub fn open_profile(&mut self, person: Person)
        requires
            old(self).ui_page < 255,
        ensures
            final(self).ui_page == old(self).ui_page + 1,
            final(self).stat_keep@ == seq![person],
            *final(self) == (Someapp {
                ui_page: final(self).ui_page,
                stat_keep: final(self).stat_keep,
                ..*old(self)
            }),
    {
        self.ui_page = self.ui_page + 1;
        self.stat_keep.clear();
        self.stat_keep.push(person);
        assert(self.stat_keep@ =~= seq![person]);
    }

    /// Shows the shift of `person`, from the employee list.
    pub fn open_employee(&mut self, person: Person)
        ensures
            final(self).ui_page_attan == 3,
            final(self).stat_keep1@ == old(self).stat_keep1@.push(person),
            *final(self) == (Someapp {
                ui_page_attan: final(self).ui_page_attan,
                stat_keep1: final(self).stat_keep1,
                ..*old(self)
            }),
    {
        self.ui_page_attan = 3;
        self.stat_keep1.push(person);
    }

    /// Goes back from one employee's shift to the employee list.
    pub fn back_to_employees(&mut self)
        ensures
            final(self).ui_page_attan == 2,
            final(self).stat_keep1@.len() == 0,
            *final(self) == (Someapp {
                ui_page_attan: final(self).ui_page_attan,
                stat_keep1: final(self).stat_keep1,
                ..*old(self)
            }),
    {
        self.ui_page_attan = 2;
        self.stat_keep1.clear();
    }

    /// Whether the four texts of the zone's corners read as coordinates.
    pub open spec fn zone_texts_valid(self) -> bool {
        &&& coordinate_of(text_bytes(self.top.2)) is Some
        &&& coordinate_of(text_bytes(self.top.3)) is Some
        &&& coordinate_of(text_bytes(self.low.2)) is Some
        &&& coordinate_of(text_bytes(self.low.3)) is Some
    }

    /// Whether the four texts entered for the zone's corners read as
    /// coordinates.
    pub fn zone_texts_ok(&self) -> (r: bool)
        ensures
            r == self.zone_texts_valid(),
    {
        parse_coordinate(self.top.2.as_str().as_bytes()).is_some() && parse_coordinate(
            self.top.3.as_str().as_bytes(),
        ).is_some() && parse_coordinate(self.low.2.as_str().as_bytes()).is_some()
            && parse_coordinate(self.low.3.as_str().as_bytes()).is_some()
    }

    /// Sets the zone from the four texts entered for its corners and opens the
    /// employee list. Each text must read as a coordinate.
    pub fn set_location(&mut self)
        requires
            old(self).zone_texts_valid(),
        ensures
            Some(final(self).top.0) == coordinate_of(text_bytes(old(self).top.2)),
            Some(final(self).top.1) == coordinate_of(text_bytes(old(self).top.3)),
            Some(final(self).low.0) == coordinate_of(text_bytes(old(self).low.2)),
            Some(final(self).low.1) == coordinate_of(text_bytes(old(self).low.3)),
            final(self).ui_page_attan == 2,
            *final(self) == (Someapp {
                top: (final(self).top.0, final(self).top.1, old(self).top.2, old(self).top.3),
                low: (final(self).low.0, final(self).low.1, old(self).low.2, old(self).low.3),
                ui_page_attan: 2,
                ..*old(self)
            }),
    {
        let top_lat = parse_coordinate(self.top.2.as_str().as_bytes());
        let top_lng = parse_coordinate(self.top.3.as_str().as_bytes());
        let low_lat = parse_coordinate(self.low.2.as_str().as_bytes());
        let low_lng = parse_coordinate(self.low.3.as_str().as_bytes());
        match (top_lat, top_lng, low_lat, low_lng) {
            (Some(a), Some(b), Some(c), Some(d)) => {
                self.top.0 = a;
                self.top.1 = b;
                self.low.0 = c;
                self.low.1 = d;
                self.ui_page_attan = 2;
            },
            _ => {},
        }
    }

    /// The required work time, entered in hours, in seconds.
    pub fn required_seconds(&self) -> (secs: u32)
        requires
            self.requiretime * 3600 <= u32::MAX,
        ensures
            secs == self.requiretime * 3600,
    {
        self.requiretime * 3600
    }

    /// What the attendance list says of the position last reported.
    pub fn work_status(&self) -> (st: WorkStatus)
        ensures
            st == (if self.contained {
                WorkStatus::Counting
            } else if self.shiftstart.0 != 0 && self.shiftend.0 != 0 {
                WorkStatus::OutOfArea
            } else {
                WorkStatus::NotCounting
            }),
    {
        if self.contained {
            WorkStatus::Counting
        } else if self.shiftstart.0 != 0 && self.shiftend.0 != 0 {
            WorkStatus::OutOfArea
        } else {
            WorkStatus::NotCounting
        }
    }
}

/// The login and registration windows are never open together: every answer
/// to the user keeps them apart when they were apart.
pub proof fn lemma_windows_exclusive(login: bool, register: bool, ev: WindowEvent)
    requires
        !(login && register),
    ensures
        !(windows_after(login, register, ev).0 && windows_after(login, register, ev).1),
{
}

/// A click on either button leaves the other window closed.
pub proof fn lemma_click_closes_other(login: bool, register: bool)
    ensures
        !windows_after(login, register, WindowEvent::LoginClicked).1,
        !windows_after(login, register, WindowEvent::RegisterClicked).0,
{
}

} // verus!
