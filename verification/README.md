# attendance

Attendance tracking for departments with a geofenced work zone.

- `src/` is the verified library:
  - `geo`: points in units of 10^-18 degree, the rectangular work zone, and the
    reading of coordinate and `latitude,longitude` texts;
  - `clock`: local time readings and ages from birth dates;
  - `attendance`: the once-a-second tally of work time and of days of full
    attendance, partial attendance and absence;
  - `schema`: which shift and attendance columns a `login` table lacks;
  - `someapp`: the session (sign-in, registration, pages) and how it answers
    the user.
- `app/` is the desktop program around it: the egui window, the SQLite files
  and the location service.
- `tests/` runs the library on concrete values.
