# ctcl

One reference instant, many temporal systems.

`src/` is the library. It converts instants between encodings, maps them into systems with a rate,
pauses or a table of their own, and keeps a registry of instants, systems, groups, triggers, wake events,
agents and settings. On top of the registry stand the local interface, the tools, the command line's
commands, the trigger engine and the delivery of wake events. Every function states what it does as a
contract over a mathematical model, and Verus proves it.

- `number` is binary64 arithmetic on bit patterns, rounded to nearest, ties to even; `natural`,
  `rounding` and `fraction` are what it is built from.
- `encoding`, `calendar`, `timescale` and `instant` read and write instants.
- `system` is the local time of a temporal system.
- `store` is the registry, one module per table. `store::sound` says what every operation keeps, and
  `history` what becomes of a trigger and its events over time.
- `api`, `tools`, `commands`, `engine`, `delivery`, `observer` and `background` are what is done with it.

What the library takes on trust is the calendar and the time zones of `chrono` and `chrono-tz`, the
letter case of Unicode, the JSON of `serde_json`, the device's clock, and fresh identifiers of `uuid`:
see the comments at the functions in `calendar`, `clock`, `encoding`, `text`, `json` and `api::request`
that call them.

`app/` is the program around the library: the SQLite file, sockets, threads, the command line and the
tool server. `tests/` runs the library.
