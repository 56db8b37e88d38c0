//! Attendance tracking for a department's work zone: the geofence that decides
//! whether an employee is at work, the per-second attendance bookkeeping, the
//! age computation used at registration, the schema upkeep decisions and the
//! state of the desktop session (login, registration and page navigation).

pub mod attendance;
pub mod clock;
pub mod geo;
pub mod schema;
pub mod someapp;
