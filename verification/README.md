# nautilus_history

Verified validation of historical one-minute bar sources for a trading data engine, written in
Verus.

A historical bars request that opts in to validation is captured as a *source*: its exact UTC
coverage on the closed-minute grid of exchange close times, bounded by the request's explicit
limit, together with an engine-clock deadline. Responses are checked against that captured
intent before any effect: identity, coverage, OHLCV sanity, the close-time phase (within one
microsecond), order, and completeness. An invalid source is rejected and its whole pipeline tree
released; an expired one fails with a timeout. Request-local aggregation output is collected per
explicitly named target and attached to the response as its outcome.

## Layout

- `src/time.rs` — the closed-minute grid, canonical close times and the close window of a UTC
  range, with the law that the window holds exactly the grid points inside the range.
- `src/source.rs` — admission of a request as a source and the check of a page against it, with
  laws: a complete page passes exactly when it is the grid; echoed bounds are ignored; complete
  acceptance implies partial acceptance; accepted pages are ordered inside the window.
- `src/outputs.rs`, `src/plan.rs` — bounded per-target aggregate output and the acyclic
  composite path of every target of a frozen plan back to the source.
- `src/engine.rs` — the engine's bookkeeping of sources, deadlines and pipeline ancestry: capture,
  expiry, rejection, release and completion. The clock reading is passed in; the shared alert is
  driven through `HistoricalBarTimer`; responses to deliver and aggregators to release are
  returned as `EngineAction`s.
- `src/pipeline.rs` — the law that whether a pipeline's legs are accepted does not depend on the
  order in which they arrive.
- `src/response.rs`, `src/data_responses.rs`, `src/messages.rs`, `src/model.rs` — the messages and
  the plain-value market data model; `trim_data_to_bounds` with its window law.
- `src/history.rs` — read-only views of responses and failures that share one response.
- `src/idset.rs` — the `ahash` set the engine collects identifiers in.
- `app/` — serde records, JSON parameters, `jiff` timestamps, the Python views and the decoding
  of Binance kline payloads.

The tests under `tests/` exercise the library on concrete values.
