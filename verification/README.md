# keymouse_monitor

Counts key presses and mouse clicks per day, stores the counts in SQLite or
MongoDB, and serves them over HTTP with live updates.

The library under `src/` holds the logic, verified with Verus:

- `counts`, `data`: the day's counts, how presses are added and how a save
  moves them to the store (with the day rollover);
- `maps`, `listener`: the names under which keys, buttons and wheel turns are
  counted, and how raw mouse input becomes events;
- `backend`, `schema`: the primary/fallback database front (the calls it
  asks of its stores, and what follows their answers) and the table rules;
- `export`, `import`: the JSON export document, written row by row, and the
  import of both of its formats;
- `api`, `logging`, `uri`, `config`, `clock`, `text`, `changelog`: query
  checks and progress reports, log rotation, MongoDB connection strings,
  configuration defaults, the calendar, text helpers, and the CHANGELOG
  formatter and checker.

`app/` is the program around it: configuration file, the clock, JSON
parsing, the storage backends and the calls to them that the database front
decides, HTTP server, logging set-up and the `rdev` input listener. `tests/` runs the
library on concrete values.
