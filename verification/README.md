# orderbook

A limit order book with bid and ask price levels, order placement,
cancellation, modification and price-time matching, written in Verus. The
price levels themselves are those of the `pricelevel` crate; the book's own
logic (where orders rest, how incoming orders sweep the opposite side, what
each update does, snapshots and volumes) is verified against contracts stated
over a mathematical model of the book.

Layout:

- `src/orders.rs`: order identifiers, sides, time-in-force policies, order kinds and updates.
- `src/outside.rs`, `src/foreign.rs`: the trusted boundary to `pricelevel`, `dashmap` and `uuid`,
  and the model of a price level (`LevelState`).
- `src/book.rs`: the book, its model (`levels`, `locations`, ...) and invariant, best prices and spread,
  and `intact`: the agreement between recorded locations, resting orders and level counters that
  placing, cancelling, changing and matching orders keep (see `src/laws.rs` and the contracts).
- `src/prices.rs`: best prices of a set of levels and walking them in price order.
- `src/matching.rs`: matching an incoming order against the opposite side, and peeking at liquidity.
- `src/modifications.rs`: placing, finding, cancelling and adding orders.
- `src/updates.rs`: changing a resting order.
- `src/operations.rs`: adding limit, iceberg and post-only orders; market and limit matching.
- `src/queries.rs`: orders at a price, all orders, volumes, snapshots.
- `src/snapshot.rs`, `src/execution.rs`, `src/error.rs`, `src/cache.rs`, `src/pool.rs`: the value types.
- `src/laws.rs`: properties that relate several operations.

The two sides of the book are std `BTreeMap`s from price to `pricelevel::PriceLevel`, whose
behaviour vstd specifies; a level changes only through a `&mut` borrow, so each change is
visible to the proofs. Where an order rests is kept in a `dashmap::DashMap` behind trusted
wrappers.
- `app/`: floating-point mid prices, the trade-listener hook, `Display` for errors and serde copies.
