# bolt_hedger

The verified core of a hedging bot that follows OKX and Binance market data.

- `src/` is the library, verified with Verus:
  - `model/` — order books (sides kept in price order, incremental updates,
    the OKX CRC-32 checksum, one book per instrument), the circular book of
    sent orders, liquidation levels, order records and push-message records;
  - `connector/` — the decisions of the Binance and OKX feeds: retries, the
    subscription and ping request texts, keep-alive timing, reading pushed
    messages, and what each does to the books and to the Redis store;
  - `util/` — fixed-point decimals (prices and sizes are counts of 10^-8
    units, read from number text as `f64` parsing reads it and rounded to
    eight places), the signed OKX login request, clock readings;
  - `bindings.rs` — the trusted calls into outside crates and std.
- `app/` is the program around it: sockets, Redis, channels, JSON output,
  floating-point prices, and `main`.
- `tests/` runs the library on concrete values.
