# billing

A billing engine for metered and fixed charges: fixed-point money
(`Amount<P>`), tariff schedules (graduated, volume, block, capacity),
time-of-use and dynamic pricing, tax and discount layers with an EN 16931 VAT
breakdown, billing documents with their consistency checks, prepayments and
advances, cash rounding, allocation across recipients, period merging and
proration.

The functions of the library carry `requires` / `ensures` contracts proved
by Verus. Decimal arithmetic and the text of decimals go through
`rust_decimal`; the few calls into it are small functions in `src/decimal.rs`
whose contracts say what `rust_decimal` returns, and where the result takes
more than a few lines to state, they name it instead. The handful of std
calls that vstd does not specify (`str::trim`, collecting characters, `Debug`
quoting, `str::from_utf8`) are wrapped the same way in `src/text.rs` and
`src/currency.rs`.

Some contracts stop short of the full behaviour:

- Tax and discount layers are traits that users implement. A layer states
  what its `compute` answers through its own `computes` relation; the
  built-in layers state exactly when they succeed and what they return. A document
  holds what the layers answered (`layered` in `src/assembly.rs`), and every
  document that assembly returns is valid.
- Allocation states what a successful split holds and how it can fail.
  A split that is not refused succeeds unless an amount cannot be formed
  (`split_arith_ok`) or a recipient's document fails validation
  (`split_failure`).

Layout:

- `src/` — the library. `lib.rs` lists the modules; `document.rs` holds the
  document and its checks, `assembly.rs` how a document is put together from
  positions and layers, `allocation.rs` how it is split, `scale_check.rs` which
  amounts fit a number of decimal places.
- `tests/` — tests run against the compiled library.
- `app/` — serde support (`DocumentWire` and friends), `std::error::Error`
  (`Error`, `ParseError`) and `Display` (`AmountText`, `CurrencyText`, …) on
  copies of the library's types that convert to and from them.
