# limabean_booking

Beancount booking, verified with Verus: postings are booked against the
positions of their accounts (reductions by FIFO, LIFO, HIFO, strict or
strict-with-size matching; augmentations; interpolation of missing numbers;
residuals within tolerance), and a ledger is loaded directive by directive
(opening and closing accounts, booking transactions, balance assertions with
padding, and the internal plugins `auto_accounts`, `implicit_prices` and
`limabean.balance_rollup`).

Layout:

- `src/` — the verified library.
  - `decimal.rs` — the decimal number type, over `rust_decimal`.
  - `collections.rs` — the `hashbrown` maps and sets, with what each holds named.
  - `types.rs`, `positions.rs`, `internal.rs`, `errors.rs`, `order.rs`, `text.rs` — the data of booking and how it is ordered and written out.
  - `categorize.rs`, `interpolate.rs`, `reductions.rs`, `tolerance.rs`, `book.rs` — booking a transaction.
  - `loader.rs` — loading a ledger; `laws.rs` — what holds across directives.
  - `parse.rs` — reading what `beancount-parser-lima` parsed into plain values;
    `ledger.rs` — loading a parsed ledger with its options and plugins.
  - `render.rs` — booked postings written as Beancount lines and as EDN.
- `tests/` — tests of the library.
- `app/` — the `limabean-pod` program: command line, reading the ledger's
  files, reporting, output as Beancount or EDN, and tabulation of JSON.
