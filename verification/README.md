# pg-retest

Capture, replay, and compare PostgreSQL workloads. The library is written in
Verus: every function of `src/` carries a contract, and Verus proves it.

- `src/` — the library.
  - `capture/` — logs of PostgreSQL, MySQL, SQL Server and Oracle become
    workloads; literals are masked.
  - `profile.rs` — workloads, sessions, queries and their transactions.
  - `sql/` — a lexer for SQL, words, placeholders and clauses in statements, and
    statements with RETURNING clauses.
  - `correlate/` — generated IDs: capture, substitution, compiled workloads.
  - `proxy/` — the wire protocol, binary values, the relay's decisions, the
    connection pool, limits, captures on command, metrics and health.
  - `replay/` — scaling, and the course of a session.
  - `compare/` — percentiles, regressions, variants, reports.
  - `classify.rs`, `config.rs`, `pipeline.rs`, `cli.rs`, `tls.rs` — classes of
    workloads, and the choices of the command line and the pipeline.
- `tests/` — tests of the library.
- `app/` — the program around it: arguments, files, sockets, databases, and
  what is floating point.

Contracts speak of models: a `String` is a sequence of characters, a workload a
`ProfileView`, a log a sequence of rows. Laws that relate several functions are
public proof functions whose names begin with `law_`.

What comes from other crates or from the standard library without a
specification is called in small functions marked
`#[verifier::external_body]`; the comment above each says what is taken on
trust.
