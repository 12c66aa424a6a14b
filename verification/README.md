# nzb-core

The damage ledger of an NZB download engine, and the path checks shared by
download and post-processing, written in Verus.

- `src/` is the library. `damage_ledger` holds the records and the rules that
  decide a verdict, `ledger_laws` what holds of every record and every history,
  `ledger_store` the way between records and table rows, `server_set` the
  fingerprint of a set of servers, `timestamp` points in time, `path` the path
  checks, and `text` the order of names.
- `app/` keeps the ledger in an SQLite table. It runs the queries and turns the
  evidence into JSON and back.
- `tests/` runs the library, with the ledger on an SQLite table in memory where
  it matters.
