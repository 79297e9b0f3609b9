# tk

A flexitime tracker: entries of worked time, break deductions charged per
working session, day types (vacation, flex, sick, holidays, absences), the
running balance against a daily target, and the public holidays of Saxony.

## Layout

- `src/` is the library, written in Verus and verified: minutes and dates,
  break tiers and sessions, day statistics and balances, the month and
  statistics views, CSV and JSON export and import, the configuration rules,
  the key maps and the state machine of the interactive screens
  (`screen.rs`), which turns a key or a store reply into the next state and
  the effects to carry out.
- `tests/` runs the library on concrete values.
- `app/` is the command line around it: argument handling (clap), the
  SQLite store (rusqlite), the `config.toml` file (toml, serde) and the
  store commands the screens ask for. It is ordinary Rust and is not
  verified.

Dates come from chrono, behind a few trusted wrappers in `src/date.rs` whose
contracts say what chrono's documentation promises.
