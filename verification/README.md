# moltis

The verified core of an agent's recall, learning loop and task board.

- `src/search`: the index over session transcripts. It says what of a transcript
  line is indexed, how rows are numbered, archived and shown, how an index
  catches up with its transcript, how a query becomes a safe full-text search,
  and how hits are grouped by session.
- `src/learning`: the counters that decide when a background self-review is due,
  what such a review is told and may call, and what it reports.
- `src/tasks`: the task board, from and to stored rows.
- `src/text.rs`, `src/json.rs`, `src/integers.rs`, `src/ordering.rs`,
  `src/clock.rs`: what these share.

Every function of `src` is verified with Verus against its contract. Modules
named `laws` or `*_laws` state what holds across functions. Functions marked
`external_body`, and the one `assume_specification`, are what is trusted: calls
into `chrono` and `std`.

`app` connects the library to SQLite, HTTP and the agent runtime. `tests` runs
the library on concrete values, the search on a real database.
