# ddstats

Statistics tooling for DDNet: it tallies play time from the master-server dumps,
keeps a PostgreSQL copy of the DDNet database in step with its CSV export, and
computes historical ranked points.

- `src/` is the library, verified with Verus: unpacking the daily dumps, the
  snapshot tallies of both master-server parsers and of the play-time script, what a
  CSV diff from csv-diff holds (its sides, its records and how they are matched by key
  hash, as stated of the trusted call) and the order of deletes and inserts it turns
  into, insert batching, and the day-by-day ranked-points steps. Dates are day
  numbers. chrono, zstd, tar, csv and csv-diff are called behind small trusted
  wrappers (`src/calendar.rs`, `src/dump.rs`, `src/database_sync.rs`).
- `app/` is the command-line program around it: argument parsing, downloads, JSON
  decoding, reading the CSV files and the SQL queries.
- `tests/` runs the library on concrete values.
