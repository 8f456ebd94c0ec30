# postgresql_archive

An archive store that keeps each item as one row of a `PostgreSQL` table and
restores it by selecting the row back, with its decisions proved by Verus.

- `src/lib.rs`: the store's settings (`PostgresqlArchive`) and its builders,
  the receipt `postgresql://<server>/<database>/<table>?id=<n>`, and what an
  INSERT or a SELECT answered means (`receipt_location`, `row_at`).
- `src/row.rs`: the INSERT statement, from its parts already quoted.
- `src/timestamp.rs`: RFC 3339 UTC text of an instant, by the era arithmetic
  of the proleptic Gregorian calendar.
- `src/calendar.rs`: that calendar as mathematics, with the proofs that every
  day count has exactly one date and that the era arithmetic finds it.
- `app/lib.rs`: the connection, the queries and the row codec, which go
  through the `PostgreSQL` transport and the archive capability crates.
