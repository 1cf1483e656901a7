# matching-engine

A price-time priority order book and matching engine, a simulated
stale-quote exchange built on it, an order gateway, and latency
benchmark workloads — with their behaviour stated in Verus contracts and
proved.

## Layout

```
src/
  lib.rs              Library exports
  types.rs            Order, Fill, Side, OrderType
  model.rs            The mathematical book: queues per price, and the
                      matching rules (sweep, submit, cancel) as spec functions
  arena.rs            Slab of order nodes with a free list
  fxmap.rs            The id index (FxHashMap) behind trusted wrappers
  orderbook.rs        The book: BTreeMap price levels of intrusive FIFO
                      lists, proved to implement the model
  laws.rs             Properties of the matching rules: accounting, price
                      priority, the book never crossed, cancel undoing a
                      placement, an immediate-or-cancel order never resting
  sim/                Simulated exchange, strategy, traders, simulation run
  server/             Wire encoding and framing, gateway rules: accounts, order
                      handling and execution reports, liquidation
  bench/              Benchmark workloads, their timer, the report layout
  fmt.rs              Decimal, grouped and padded numbers; UTC timestamps
  arg.rs              The command line as plain types
app/                  The program: clap, histograms, printing, sockets
tests/                Tests of the library
```

## Building and checking

The library is verified with Verus; `app/` is ordinary Rust that calls it.
