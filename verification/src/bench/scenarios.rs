//! Benchmark workloads: each drives the book through one kind of
//! operation. A timed workload returns the latency of every operation
//! after the warm-up, in nanoseconds; a profile workload runs the same
//! operations untimed.
use vstd::prelude::*;
use crate::arena::INVALID;
use crate::bench::harness::{ITERS, MID, SPREAD, SWEEP_ITERS, WARMUP};
use crate::bench::timer::{calibrate, elapsed_ns, keep_opaque, start};
use crate::model::{submit, BookView};
use crate::orderbook::OrderBook;
use crate::types::{Fill, Order, OrderType, Side};

verus! {

/// The price of the `i`-th seeded order on `side`: 200 levels outside the
/// spread, cycling.
pub open spec fn seed_price(side: Side, i: u64) -> u64 {
    match side {
        Side::Buy => (MID - SPREAD - (i % 200)) as u64,
        Side::Sell => (MID + SPREAD + (i % 200)) as u64,
    }
}

pub open spec fn limit_order(id: u64, side: Side, price: u64, qty: u64) -> Order {
    Order { id, side, price, qty, order_type: OrderType::Limit }
}

/// The `i`-th seeded order, for 10 lots under id `id`.
pub open spec fn seed_order(side: Side, i: u64, id: u64) -> Order {
    limit_order(id, side, seed_price(side, i), 10)
}

/// The book after seeding orders `0..n` on one side under ids from `id0`.
pub open spec fn seeded_one_side(v: BookView, side: Side, n: nat, id0: u64) -> BookView
    decreases n,
{
    if n == 0 {
        v
    } else {
        submit(
            seeded_one_side(v, side, (n - 1) as nat, id0),
            seed_order(side, (n - 1) as u64, (id0 + n - 1) as u64),
        ).0
    }
}

/// Even-numbered seeded orders are bids, odd-numbered ones asks.
pub open spec fn alternate_side(i: u64) -> Side {
    if i % 2 == 0 {
        Side::Buy
    } else {
        Side::Sell
    }
}

/// The book after seeding orders `0..n` alternately on both sides under
/// ids from `id0`.
pub open spec fn seeded_both(v: BookView, n: nat, id0: u64) -> BookView
    decreases n,
{
    if n == 0 {
        v
    } else {
        let i = (n - 1) as u64;
        submit(seeded_both(v, (n - 1) as nat, id0), seed_order(alternate_side(i), i, (id0 + i) as u64)).0
    }
}

fn seed_one_side(book: &mut OrderBook, side: Side, n: u64, id: &mut u64, fills: &mut Vec<Fill>)
    requires
        old(book).wf(),
        old(book).nodes_in_use() + n < INVALID,
        *old(id) + n <= u64::MAX,
    ensures
        final(book).wf(),
        final(book)@ == seeded_one_side(old(book)@, side, n as nat, *old(id)),
        final(book).nodes_in_use() <= old(book).nodes_in_use() + n,
        *final(id) == *old(id) + n,
        n == 0 ==> final(fills)@ == old(fills)@,
        n > 0 ==> final(fills)@ == submit(
            seeded_one_side(old(book)@, side, (n - 1) as nat, *old(id)),
            seed_order(side, (n - 1) as u64, (*old(id) + n - 1) as u64),
        ).1,
{
    let ghost v0 = book@;
    let ghost id0 = *id;
    let ghost n0 = book.nodes_in_use();
    let ghost f0 = fills@;
    let mut i: u64 = 0;
    while i < n
        invariant
            0 <= i <= n,
            book.wf(),
            book@ == seeded_one_side(v0, side, i as nat, id0),
            book.nodes_in_use() <= n0 + i,
            *id == id0 + i,
            n0 + n < INVALID,
            id0 + n <= u64::MAX,
            i == 0 ==> fills@ == f0,
            i > 0 ==> fills@ == submit(
                seeded_one_side(v0, side, (i - 1) as nat, id0),
                seed_order(side, (i - 1) as u64, (id0 + i - 1) as u64),
            ).1,
        decreases n - i,
    {
        let price = match side {
            Side::Buy => MID - SPREAD - (i % 200),
            Side::Sell => MID + SPREAD + (i % 200),
        };
        fills.clear();
        book.add_order(Order { id: *id, side, price, qty: 10, order_type: OrderType::Limit }, fills);
        *id = *id + 1;
        i = i + 1;
    }
}

fn seed_both(book: &mut OrderBook, n: u64, id: &mut u64, fills: &mut Vec<Fill>)
    requires
        old(book).wf(),
        old(book).nodes_in_use() + n < INVALID,
        *old(id) + n <= u64::MAX,
    ensures
        final(book).wf(),
        final(book)@ == seeded_both(old(book)@, n as nat, *old(id)),
        final(book).nodes_in_use() <= old(book).nodes_in_use() + n,
        *final(id) == *old(id) + n,
        n == 0 ==> final(fills)@ == old(fills)@,
        n > 0 ==> final(fills)@ == submit(
            seeded_both(old(book)@, (n - 1) as nat, *old(id)),
            seed_order(alternate_side((n - 1) as u64), (n - 1) as u64, (*old(id) + n - 1) as u64),
        ).1,
{
    let ghost v0 = book@;
    let ghost id0 = *id;
    let ghost n0 = book.nodes_in_use();
    let ghost f0 = fills@;
    let mut i: u64 = 0;
    while i < n
        invariant
            0 <= i <= n,
            book.wf(),
            book@ == seeded_both(v0, i as nat, id0),
            book.nodes_in_use() <= n0 + i,
            *id == id0 + i,
            n0 + n < INVALID,
            id0 + n <= u64::MAX,
            i == 0 ==> fills@ == f0,
            i > 0 ==> fills@ == submit(
                seeded_both(v0, (i - 1) as nat, id0),
                seed_order(alternate_side((i - 1) as u64), (i - 1) as u64, (id0 + i - 1) as u64),
            ).1,
        decreases n - i,
    {
        let (side, price) = if i % 2 == 0 {
            (Side::Buy, MID - SPREAD - (i % 200))
        } else {
            (Side::Sell, MID + SPREAD + (i % 200))
        };
        fills.clear();
        book.add_order(Order { id: *id, side, price, qty: 10, order_type: OrderType::Limit }, fills);
        *id = *id + 1;
        i = i + 1;
    }
}

/// A new book seeded with `depth` orders on both sides, the next free id,
/// and an empty fill buffer.
fn fresh_book_both(depth: u64) -> (r: (OrderBook, u64, Vec<Fill>))
    requires
        depth < INVALID,
    ensures
        r.0.wf(),
        r.0@ == seeded_both(BookView::empty(), depth as nat, 1),
        r.0.nodes_in_use() <= depth,
        r.1 == depth + 1,
{
    let mut book = OrderBook::with_capacity(depth as usize);
    let mut fills: Vec<Fill> = Vec::with_capacity(4);
    let mut id: u64 = 1;
    seed_both(&mut book, depth, &mut id, &mut fills);
    (book, id, fills)
}

/// A new book seeded with `depth` asks, the next free id, and the fill
/// buffer.
fn fresh_book_asks(depth: u64) -> (r: (OrderBook, u64, Vec<Fill>))
    requires
        depth < INVALID,
    ensures
        r.0.wf(),
        r.0@ == seeded_one_side(BookView::empty(), Side::Sell, depth as nat, 1),
        r.0.nodes_in_use() <= depth,
        r.1 == depth + 1,
{
    let mut book = OrderBook::with_capacity(depth as usize);
    let mut fills: Vec<Fill> = Vec::with_capacity(4);
    let mut id: u64 = 1;
    seed_one_side(&mut book, Side::Sell, depth, &mut id, &mut fills);
    (book, id, fills)
}


/// Clears the fill buffer and submits `o`.
fn submit_one(book: &mut OrderBook, fills: &mut Vec<Fill>, o: Order)
    requires
        old(book).wf(),
        old(book).nodes_in_use() + 1 < INVALID,
    ensures
        final(book).wf(),
        final(book)@ == submit(old(book)@, o).0,
        final(fills)@ == submit(old(book)@, o).1,
        final(book).nodes_in_use() <= old(book).nodes_in_use() + 1,
{
    fills.clear();
    book.add_order(o, fills);
}

/// A passive order for 10 lots, 200 levels beyond the seeded prices: a
/// bid for an even id, an ask for an odd one.
fn passive_order(id: u64) -> (o: Order)
    ensures
        o.id == id,
        o.qty == 10,
        o.order_type == OrderType::Limit,
        o.side == alternate_side(id),
        o.price == (match alternate_side(id) {
            Side::Buy => MID - SPREAD - 200 - (id % 100),
            Side::Sell => MID + SPREAD + 200 + (id % 100),
        }),
{
    let (side, price) = if id % 2 == 0 {
        (Side::Buy, MID - SPREAD - 200 - (id % 100))
    } else {
        (Side::Sell, MID + SPREAD + 200 + (id % 100))
    };
    Order { id, side, price, qty: 10, order_type: OrderType::Limit }
}

/// The number of latencies recorded once `i` operations have run.
pub open spec fn recorded(i: u64) -> nat {
    if i > WARMUP {
        (i - WARMUP) as nat
    } else {
        0
    }
}

/// Passive inserts into a book seeded with `depth` orders.
pub fn passive_insert(depth: u64) -> (lat: Vec<u64>)
    requires
        depth + WARMUP + ITERS < INVALID,
    ensures
        lat.len() == ITERS,
{
    let mut book = OrderBook::with_capacity((depth + WARMUP + ITERS) as usize);
    let mut fills: Vec<Fill> = Vec::with_capacity(4);
    let mut id: u64 = 1;
    seed_both(&mut book, depth, &mut id, &mut fills);
    calibrate();
    let mut lat: Vec<u64> = Vec::new();
    let mut i: u64 = 0;
    while i < WARMUP + ITERS
        invariant
            0 <= i <= WARMUP + ITERS,
            book.wf(),
            book.nodes_in_use() <= depth + i,
            id == depth + 1 + i,
            depth + WARMUP + ITERS < INVALID,
            lat.len() == recorded(i),
        decreases WARMUP + ITERS - i,
    {
        let t = start();
        submit_one(&mut book, &mut fills, passive_order(id));
        if i >= WARMUP {
            lat.push(elapsed_ns(t));
        }
        id = id + 1;
        i = i + 1;
    }
    lat
}

pub fn profile_passive_insert(depth: u64)
    requires
        depth + WARMUP + ITERS < INVALID,
{
    let mut book = OrderBook::with_capacity((depth + WARMUP + ITERS) as usize);
    let mut fills: Vec<Fill> = Vec::with_capacity(4);
    let mut id: u64 = 1;
    seed_both(&mut book, depth, &mut id, &mut fills);
    let mut i: u64 = 0;
    while i < WARMUP + ITERS
        invariant
            0 <= i <= WARMUP + ITERS,
            book.wf(),
            book.nodes_in_use() <= depth + i,
            id == depth + 1 + i,
            depth + WARMUP + ITERS < INVALID,
        decreases WARMUP + ITERS - i,
    {
        submit_one(&mut book, &mut fills, passive_order(id));
        id = id + 1;
        i = i + 1;
    }
}

/// The level below which a seeded book is refilled: a quarter of its
/// depth, and at least 10.
fn refill_level(depth: u64) -> (r: usize)
    requires
        depth < INVALID,
    ensures
        r == (if depth / 4 > 10 {
            depth / 4
        } else {
            10
        }),
{
    let q = depth / 4;
    if q > 10 {
        q as usize
    } else {
        10
    }
}

/// Orders that take one lot from the asks of a book seeded with `depth`
/// of them, refilled when it runs low. A market order when `market`, else
/// a limit order that crosses every seeded ask.
fn take_one_lot(depth: u64, market: bool, timed: bool) -> (lat: Vec<u64>)
    requires
        depth + WARMUP + ITERS < INVALID,
    ensures
        timed ==> lat.len() == ITERS,
{
    let (mut book, mut id, mut fills) = fresh_book_asks(depth);
    let refill_at = refill_level(depth);
    if timed {
        calibrate();
    }
    let mut lat: Vec<u64> = Vec::new();
    let mut i: u64 = 0;
    while i < WARMUP + ITERS
        invariant
            0 <= i <= WARMUP + ITERS,
            book.wf(),
            book.nodes_in_use() <= depth + i,
            id <= depth + 1 + i,
            depth + WARMUP + ITERS < INVALID,
            timed ==> lat.len() == recorded(i),
        decreases WARMUP + ITERS - i,
    {
        if book.len() < refill_at {
            let fresh = fresh_book_asks(depth);
            book = fresh.0;
            id = fresh.1;
            fills = fresh.2;
        }
        let o = if market {
            Order { id, side: Side::Buy, price: 0, qty: 1, order_type: OrderType::Market }
        } else {
            Order { id, side: Side::Buy, price: MID + SPREAD + 200, qty: 1, order_type: OrderType::Limit }
        };
        if timed {
            let t = start();
            submit_one(&mut book, &mut fills, o);
            if i >= WARMUP {
                lat.push(elapsed_ns(t));
            }
        } else {
            submit_one(&mut book, &mut fills, o);
        }
        id = id + 1;
        i = i + 1;
    }
    lat
}

/// One-lot limit orders against a book seeded with `depth` asks.
pub fn aggressive_fill(depth: u64) -> (lat: Vec<u64>)
    requires
        depth + WARMUP + ITERS < INVALID,
    ensures
        lat.len() == ITERS,
{
    take_one_lot(depth, false, true)
}

pub fn profile_aggressive_fill(depth: u64)
    requires
        depth + WARMUP + ITERS < INVALID,
{
    let _ = take_one_lot(depth, false, false);
}

/// One-lot market orders against a book seeded with `depth` asks.
pub fn market_order(depth: u64) -> (lat: Vec<u64>)
    requires
        depth + WARMUP + ITERS < INVALID,
    ensures
        lat.len() == ITERS,
{
    take_one_lot(depth, true, true)
}

pub fn profile_market_order(depth: u64)
    requires
        depth + WARMUP + ITERS < INVALID,
{
    let _ = take_one_lot(depth, true, false);
}

/// A bid that sweeps `num_levels` ask levels of 10 lots each, on a new
/// book every time.
fn sweep_levels(num_levels: u64, timed: bool) -> (lat: Vec<u64>)
    requires
        num_levels + 1 < INVALID,
    ensures
        timed ==> lat.len() == SWEEP_ITERS,
{
    let mut fills: Vec<Fill> = Vec::with_capacity(num_levels as usize);
    let mut id: u64 = 1;
    if timed {
        calibrate();
    }
    let mut lat: Vec<u64> = Vec::new();
    let mut i: u64 = 0;
    while i < WARMUP + SWEEP_ITERS
        invariant
            0 <= i <= WARMUP + SWEEP_ITERS,
            1 <= id <= 1 + i * 0x1_0000_0000,
            num_levels + 1 < INVALID,
            timed ==> lat.len() == recorded(i),
        decreases WARMUP + SWEEP_ITERS - i,
    {
        let mut book = OrderBook::with_capacity(num_levels as usize);
        let ghost id0 = id;
        let mut l: u64 = 0;
        while l < num_levels
            invariant
                0 <= l <= num_levels,
                book.wf(),
                book.nodes_in_use() <= l,
                id == id0 + l,
                1 <= id0 <= 1 + i * 0x1_0000_0000,
                i < WARMUP + SWEEP_ITERS,
                num_levels + 1 < INVALID,
            decreases num_levels - l,
        {
            submit_one(
                &mut book,
                &mut fills,
                Order { id, side: Side::Sell, price: MID + 1 + l, qty: 10, order_type: OrderType::Limit },
            );
            id = id + 1;
            l = l + 1;
        }
        let o = Order {
            id,
            side: Side::Buy,
            price: MID + num_levels,
            qty: num_levels * 10,
            order_type: OrderType::Limit,
        };
        if timed {
            let t = start();
            submit_one(&mut book, &mut fills, o);
            if i >= WARMUP {
                lat.push(elapsed_ns(t));
            }
        } else {
            submit_one(&mut book, &mut fills, o);
        }
        id = id + 1;
        i = i + 1;
    }
    lat
}

pub fn multi_level_sweep(num_levels: u64) -> (lat: Vec<u64>)
    requires
        num_levels + 1 < INVALID,
    ensures
        lat.len() == SWEEP_ITERS,
{
    sweep_levels(num_levels, true)
}

pub fn profile_multi_level_sweep(num_levels: u64)
    requires
        num_levels + 1 < INVALID,
{
    let _ = sweep_levels(num_levels, false);
}


/// Cancels of resting orders, oldest id first, in a book seeded with
/// `depth` orders on both sides and reseeded when every one is gone.
fn cancel_all(depth: u64, timed: bool) -> (lat: Vec<u64>)
    requires
        depth < INVALID,
    ensures
        timed ==> lat.len() == ITERS,
{
    let (mut book, mut id, _) = fresh_book_both(depth);
    let mut cancel_id = id - depth;
    if timed {
        calibrate();
    }
    let mut lat: Vec<u64> = Vec::new();
    let mut i: u64 = 0;
    while i < WARMUP + ITERS
        invariant
            0 <= i <= WARMUP + ITERS,
            book.wf(),
            id == depth + 1,
            1 <= cancel_id <= id + 1,
            depth < INVALID,
            timed ==> lat.len() == recorded(i),
        decreases WARMUP + ITERS - i,
    {
        if cancel_id >= id {
            let fresh = fresh_book_both(depth);
            book = fresh.0;
            id = fresh.1;
            cancel_id = id - depth;
        }
        if timed {
            let t = start();
            let _ = book.cancel(cancel_id);
            if i >= WARMUP {
                lat.push(elapsed_ns(t));
            }
        } else {
            let _ = book.cancel(cancel_id);
        }
        cancel_id = cancel_id + 1;
        i = i + 1;
    }
    lat
}

pub fn cancel(depth: u64) -> (lat: Vec<u64>)
    requires
        depth < INVALID,
    ensures
        lat.len() == ITERS,
{
    cancel_all(depth, true)
}

pub fn profile_cancel(depth: u64)
    requires
        depth < INVALID,
{
    let _ = cancel_all(depth, false);
}

/// Seeds `count` asks of 10 lots at `price` under consecutive ids; returns
/// the first of them.
fn seed_level(book: &mut OrderBook, id: &mut u64, fills: &mut Vec<Fill>, count: u64, price: u64) -> (fid: u64)
    requires
        old(book).wf(),
        old(book).nodes_in_use() + count < INVALID,
        *old(id) + count <= u64::MAX,
    ensures
        final(book).wf(),
        final(book).nodes_in_use() <= old(book).nodes_in_use() + count,
        *final(id) == *old(id) + count,
        fid == *old(id),
{
    let fid = *id;
    let ghost n0 = book.nodes_in_use();
    let mut k: u64 = 0;
    while k < count
        invariant
            0 <= k <= count,
            book.wf(),
            book.nodes_in_use() <= n0 + k,
            *id == fid + k,
            n0 + count < INVALID,
            fid + count <= u64::MAX,
        decreases count - k,
    {
        submit_one(book, fills, Order { id: *id, side: Side::Sell, price, qty: 10, order_type: OrderType::Limit });
        *id = *id + 1;
        k = k + 1;
    }
    fid
}

/// Cancels from a single price level holding `seed_count` orders, oldest
/// first, reseeded when it is empty; `iters` cancels after the warm-up.
fn cancel_from_level(seed_count: u64, iters: u64, timed: bool) -> (lat: Vec<u64>)
    requires
        seed_count + 1 < INVALID,
        iters <= ITERS,
    ensures
        timed ==> lat.len() == iters,
{
    let mut fills: Vec<Fill> = Vec::with_capacity(4);
    let mut id: u64 = 1;
    let price = MID + SPREAD;
    if timed {
        calibrate();
    }
    let mut lat: Vec<u64> = Vec::new();
    let mut book = OrderBook::new();
    let mut cancel_id = seed_level(&mut book, &mut id, &mut fills, seed_count, price);
    let mut i: u64 = 0;
    while i < WARMUP + iters
        invariant
            0 <= i <= WARMUP + iters,
            iters <= ITERS,
            book.wf(),
            book.nodes_in_use() <= seed_count,
            cancel_id <= id + 1,
            id <= cancel_id + seed_count,
            1 <= cancel_id <= 1 + i,
            seed_count + 1 < INVALID,
            timed ==> lat.len() == recorded(i),
        decreases WARMUP + iters - i,
    {
        if cancel_id >= id {
            book = OrderBook::new();
            cancel_id = seed_level(&mut book, &mut id, &mut fills, seed_count, price);
        }
        if timed {
            let t = start();
            let _ = book.cancel(cancel_id);
            if i >= WARMUP {
                lat.push(elapsed_ns(t));
            }
        } else {
            let _ = book.cancel(cancel_id);
        }
        cancel_id = cancel_id + 1;
        i = i + 1;
    }
    lat
}

/// How many cancels a hot-level run measures: `ITERS`, or fewer for a
/// smaller level.
pub open spec fn hot_level_iters(orders_per_level: u64) -> u64 {
    if orders_per_level < ITERS {
        orders_per_level
    } else {
        ITERS
    }
}

pub fn cancel_hot_level(orders_per_level: u64) -> (lat: Vec<u64>)
    requires
        orders_per_level + 1 < INVALID,
    ensures
        lat.len() == hot_level_iters(orders_per_level),
{
    let iters = if orders_per_level < ITERS {
        orders_per_level
    } else {
        ITERS
    };
    cancel_from_level(orders_per_level, iters, true)
}

pub fn profile_cancel_hot_level(orders_per_level: u64)
    requires
        orders_per_level + WARMUP + 1 < INVALID,
{
    let iters = if orders_per_level < ITERS {
        orders_per_level
    } else {
        ITERS
    };
    let _ = cancel_from_level(WARMUP + orders_per_level, iters, false);
}

/// A bid that takes a whole level of `orders` one-lot asks, on a new book
/// every time.
fn drain_level(orders: u64, timed: bool) -> (lat: Vec<u64>)
    requires
        orders + 1 < INVALID,
    ensures
        timed ==> lat.len() == SWEEP_ITERS,
{
    let mut fills: Vec<Fill> = Vec::with_capacity(orders as usize);
    let mut id: u64 = 1;
    let price = MID + SPREAD;
    if timed {
        calibrate();
    }
    let mut lat: Vec<u64> = Vec::new();
    let mut i: u64 = 0;
    while i < WARMUP + SWEEP_ITERS
        invariant
            0 <= i <= WARMUP + SWEEP_ITERS,
            1 <= id <= 1 + i * 0x1_0000_0000,
            orders + 1 < INVALID,
            price == MID + SPREAD,
            timed ==> lat.len() == recorded(i),
        decreases WARMUP + SWEEP_ITERS - i,
    {
        let mut book = OrderBook::with_capacity(orders as usize);
        let ghost id0 = id;
        let mut k: u64 = 0;
        while k < orders
            invariant
                0 <= k <= orders,
                book.wf(),
                book.nodes_in_use() <= k,
                id == id0 + k,
                1 <= id0 <= 1 + i * 0x1_0000_0000,
                i < WARMUP + SWEEP_ITERS,
                orders + 1 < INVALID,
            decreases orders - k,
        {
            submit_one(
                &mut book,
                &mut fills,
                Order { id, side: Side::Sell, price, qty: 1, order_type: OrderType::Limit },
            );
            id = id + 1;
            k = k + 1;
        }
        let o = Order { id, side: Side::Buy, price, qty: orders, order_type: OrderType::Limit };
        if timed {
            let t = start();
            submit_one(&mut book, &mut fills, o);
            if i >= WARMUP {
                lat.push(elapsed_ns(t));
            }
        } else {
            submit_one(&mut book, &mut fills, o);
        }
        id = id + 1;
        i = i + 1;
    }
    lat
}

pub fn drain_single_level(orders: u64) -> (lat: Vec<u64>)
    requires
        orders + 1 < INVALID,
    ensures
        lat.len() == SWEEP_ITERS,
{
    drain_level(orders, true)
}

pub fn profile_drain_single_level(orders: u64)
    requires
        orders + 1 < INVALID,
{
    let _ = drain_level(orders, false);
}

/// The ids `1..=n`, in order.
fn id_range(n: u64) -> (v: Vec<u64>)
    requires
        n < INVALID,
    ensures
        v@ == Seq::new(n as nat, |k: int| (k + 1) as u64),
{
    let mut v: Vec<u64> = Vec::new();
    let mut k: u64 = 1;
    while k <= n
        invariant
            1 <= k <= n + 1,
            n < INVALID,
            v@ == Seq::new((k - 1) as nat, |j: int| (j + 1) as u64),
        decreases n + 1 - k,
    {
        v.push(k);
        proof {
            assert(v@ =~= Seq::new(k as nat, |j: int| (j + 1) as u64));
        }
        k = k + 1;
    }
    v
}

/// A realistic mix on a book seeded with `depth` orders: by id, 13 in 20
/// operations cancel the next id of a ring of known ids, 5 insert a
/// passive order and remember its id, and 2 take one lot from the far
/// side. The book is reseeded when fewer than 50 orders rest.
fn mixed(depth: u64, timed: bool) -> (lat: Vec<u64>)
    requires
        depth + WARMUP + ITERS < INVALID,
    ensures
        timed ==> lat.len() == ITERS,
{
    let mut fills: Vec<Fill> = Vec::with_capacity(8);
    let mut id: u64 = 1;
    let mut book = OrderBook::with_capacity(depth as usize);
    seed_both(&mut book, depth, &mut id, &mut fills);
    let ring_cap: usize = if depth > 4096 {
        depth as usize
    } else {
        4096
    };
    let mut cancel_ring: Vec<u64> = id_range(depth);
    let mut ring_idx: usize = 0;
    if timed {
        calibrate();
    }
    let mut lat: Vec<u64> = Vec::new();
    let mut i: u64 = 0;
    while i < WARMUP + ITERS
        invariant
            0 <= i <= WARMUP + ITERS,
            book.wf(),
            book.nodes_in_use() <= depth + i,
            1 <= id <= depth + 1 + i,
            depth + WARMUP + ITERS < INVALID,
            ring_cap >= 4096,
            ring_cap >= depth,
            cancel_ring.len() <= ring_cap,
            ring_idx <= i,
            timed ==> lat.len() == recorded(i),
        decreases WARMUP + ITERS - i,
    {
        if book.len() < 50 {
            book = OrderBook::with_capacity(depth as usize);
            id = 1;
            seed_both(&mut book, depth, &mut id, &mut fills);
            cancel_ring = id_range(depth);
            ring_idx = 0;
        }
        let roll = id % 20;
        let t = if timed {
            Some(start())
        } else {
            None
        };
        if roll < 13 {
            if cancel_ring.len() > 0 {
                let cid = cancel_ring[ring_idx % cancel_ring.len()];
                let _ = book.cancel(cid);
                ring_idx = ring_idx + 1;
            }
        } else if roll < 18 {
            submit_one(&mut book, &mut fills, passive_order(id));
            if cancel_ring.len() < ring_cap {
                cancel_ring.push(id);
            } else {
                let slot = ring_idx % ring_cap;
                cancel_ring.set(slot, id);
            }
        } else {
            let (side, price) = if id % 2 == 0 {
                (Side::Buy, MID + SPREAD + 200)
            } else {
                (Side::Sell, MID - SPREAD - 200)
            };
            submit_one(&mut book, &mut fills, Order { id, side, price, qty: 1, order_type: OrderType::Limit });
        }
        if i >= WARMUP {
            if let Some(t0) = t {
                lat.push(elapsed_ns(t0));
            }
        }
        id = id + 1;
        i = i + 1;
    }
    lat
}

pub fn mixed_workload(depth: u64) -> (lat: Vec<u64>)
    requires
        depth + WARMUP + ITERS < INVALID,
    ensures
        lat.len() == ITERS,
{
    mixed(depth, true)
}

pub fn profile_mixed_workload(depth: u64)
    requires
        depth + WARMUP + ITERS < INVALID,
{
    let _ = mixed(depth, false);
}

/// The cost of reading the timer around an operation that does nothing.
fn time_nothing(timed: bool) -> (lat: Vec<u64>)
    ensures
        timed ==> lat.len() == ITERS,
{
    let mut x: u64 = 0;
    if timed {
        calibrate();
    }
    let mut lat: Vec<u64> = Vec::new();
    let mut i: u64 = 0;
    while i < WARMUP + ITERS
        invariant
            0 <= i <= WARMUP + ITERS,
            timed ==> lat.len() == recorded(i),
        decreases WARMUP + ITERS - i,
    {
        if timed {
            let t = start();
            keep_opaque(&mut x);
            if i >= WARMUP {
                lat.push(elapsed_ns(t));
            }
        } else {
            keep_opaque(&mut x);
        }
        i = i + 1;
    }
    lat
}

pub fn timer_only() -> (lat: Vec<u64>)
    ensures
        lat.len() == ITERS,
{
    time_nothing(true)
}

pub fn profile_timer_only() {
    let _ = time_nothing(false);
}

/// The same measurement as `timer_only`: every workload uses the one timer.
pub fn timer_rdtsc() -> (lat: Vec<u64>)
    ensures
        lat.len() == ITERS,
{
    timer_only()
}

} // verus!
