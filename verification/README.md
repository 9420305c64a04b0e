# kijuku_db

The core of the kijuku media database, written in Verus: every function in
`src/` carries a contract that Verus proves.

- `src/` — the verified library: row reading and SQL statements of the media
  tables, content hashes, backups and their records, snapshot diffs and their
  summaries, the promote gate, configuration and target resolution, file
  operations under the media root, and the transfer of one database into
  another (`transfer_flow` decides each step, `transfer_run` proves that a
  full run moves every row).
- `tests/` — tests run against the compiled library.
- `app/` — the command-line program: argument handling, file and database
  I/O, and the loops that carry out the library's decisions.

Calls into outside crates (rusqlite, chrono, sha2, uuid) stand behind small
trusted wrappers whose doc comments say what their contracts claim.
