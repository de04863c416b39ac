# league_scoring

A self-hosted league tracker: players report match results, opponents
confirm or dispute them, admins run tournaments and players through a
token-based API, and standings are computed from the confirmed games.

- `src/` is the library, written in Verus and verified: score validation,
  bearer-token handling, the decision chains of the endpoints that decide
  something (what each one asks the store, and what it answers or records),
  token choice, and the standings (records, exact-ratio ranking, ranks), with
  the laws that relate them: `standings.rs` holds the standings laws,
  `store.rs` a model of the store's rows and the laws the endpoints' writes
  keep of it (one pending game per pair of players, one active tournament,
  enrolment that changes nothing the second time).
- The listing endpoints (tournaments, players, a tournament's or a player's
  games) and the store's filters (which games count toward the standings,
  the archive update) are SQL queries in
  `app/`; the library turns their rows into answers.
- `app/` is the HTTP server (axum) and the SQLite store (sqlx) that drive the
  library.
- `tests/` exercises the library on concrete values.

The server listens on port 3000 (`PORT`), stores its data in `league.db`
(`DATABASE_URL`), and seeds an admin on first boot, with `ADMIN_TOKEN` if set,
else a random UUID printed to the log.
