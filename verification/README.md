# sat_tracker

A satellite tracker: it keeps a local copy of orbital elements, finds a
satellite's next passes over the observer, keeps a radio tuned through a
rigctl server as the Doppler shift changes, and keeps named groups of
satellites in files.

- `src/` is the verified library (Verus): command arguments and the
  `group` sub-commands (`commands`), group member lists and their laws
  (`groups`), the JSON text of group files (`json`), the pass search as a
  state machine (`passes`), rigctl command text (`rigctl`), word splitting,
  substring search and decimal numbers (`text`), and decisions about the
  stored elements (`tle`).
- `app/` is the program around it: the terminal loop, file and network
  I/O, the clock, and the orbital geometry, which works in floating point.
- `tests/` exercises the library on concrete values.
