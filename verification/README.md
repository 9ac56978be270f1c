# homeworks

A collection of small Rust exercises, written as a verified Verus library.

- `src/` is the library. Every function carries a contract that Verus proves:
  a singly linked list, counters, pair and vector arithmetic, slice helpers,
  matrices, string puzzles (digit products, the missing number, the unique
  digit, bracket validation), two toy banks, FizzBuzz, the text logic of two
  code generators, and the logic of a schedule bot (reading a timetable page,
  grouping lines by course, the JSON records it stores, its replies).
- `tests/` runs the library on concrete values.
- `app/` holds the programs around it: a command-line entry point for each
  exercise, the Telegram bot with its store and settings, and the
  floating-point exercises, which the library does not reason about.

Outside crates are called from the library only through a few small
functions whose contracts are trusted: `ulid` for operation ids,
`serde_json` for the stored lists, and `scraper` for the timetable page.
