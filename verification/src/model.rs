//! The mathematical model of an order book: for each side, a map from price
//! to the FIFO queue of resting orders at that price, and the rules of
//! price-time priority matching stated over it.
use vstd::prelude::*;
use crate::types::{Fill, Order, OrderType, Side};

verus! {

/// A resting order as seen from outside the book.
///
/// `indexed` tells whether the order can be found by its id (and so
/// cancelled, and counted by `len`). An order loses its index entry when a
/// later order with the same id is placed, or when any order with its id is
/// fully filled.
pub struct Resting {
    pub id: u64,
    pub qty: u64,
    pub indexed: bool,
}

/// Both sides of a book: price -> queue of resting orders, oldest first.
pub struct BookView {
    pub bids: Map<u64, Seq<Resting>>,
    pub asks: Map<u64, Seq<Resting>>,
}

pub open spec fn opposite(s: Side) -> Side {
    match s {
        Side::Buy => Side::Sell,
        Side::Sell => Side::Buy,
    }
}

/// Smallest element of a set of prices.
pub open spec fn lowest(keys: Set<u64>) -> Option<u64> {
    if keys.is_empty() {
        None
    } else {
        Some(choose|p: u64| keys.contains(p) && forall|q: u64| keys.contains(q) ==> p <= q)
    }
}

/// Largest element of a set of prices.
pub open spec fn highest(keys: Set<u64>) -> Option<u64> {
    if keys.is_empty() {
        None
    } else {
        Some(choose|p: u64| keys.contains(p) && forall|q: u64| keys.contains(q) ==> q <= p)
    }
}

/// Whether an incoming order may trade at level price `p`.
pub open spec fn crosses(o: Order, p: u64) -> bool {
    match o.order_type {
        OrderType::Market => true,
        OrderType::Limit => match o.side {
            Side::Buy => p <= o.price,
            Side::Sell => p >= o.price,
        },
    }
}

/// Drops the index mark of every order with id `id` in a queue.
pub open spec fn clear_mark(q: Seq<Resting>, id: u64) -> Seq<Resting> {
    q.map_values(|r: Resting| Resting { id: r.id, qty: r.qty, indexed: r.indexed && r.id != id })
}

pub open spec fn clear_mark_side(m: Map<u64, Seq<Resting>>, id: u64) -> Map<u64, Seq<Resting>> {
    m.map_values(|q: Seq<Resting>| clear_mark(q, id))
}

/// Sum of the quantities in a queue.
pub open spec fn queue_qty(q: Seq<Resting>) -> nat
    decreases q.len(),
{
    if q.len() == 0 {
        0
    } else {
        queue_qty(q.drop_last()) + q.last().qty as nat
    }
}

impl BookView {
    pub open spec fn empty() -> BookView {
        BookView { bids: Map::empty(), asks: Map::empty() }
    }

    pub open spec fn side(self, s: Side) -> Map<u64, Seq<Resting>> {
        match s {
            Side::Buy => self.bids,
            Side::Sell => self.asks,
        }
    }

    pub open spec fn with_side(self, s: Side, m: Map<u64, Seq<Resting>>) -> BookView {
        match s {
            Side::Buy => BookView { bids: m, asks: self.asks },
            Side::Sell => BookView { bids: self.bids, asks: m },
        }
    }

    /// The best price of a side: the highest bid or the lowest ask.
    pub open spec fn best(self, s: Side) -> Option<u64> {
        match s {
            Side::Buy => highest(self.bids.dom()),
            Side::Sell => lowest(self.asks.dom()),
        }
    }

    /// Position `i` of the queue at price `p` on side `s` holds an indexed
    /// order with id `id`.
    pub open spec fn indexed_at(self, s: Side, p: u64, i: int, id: u64) -> bool {
        &&& self.side(s).contains_key(p)
        &&& 0 <= i < self.side(s)[p].len()
        &&& self.side(s)[p][i].id == id
        &&& self.side(s)[p][i].indexed
    }

    pub open spec fn has_indexed(self, id: u64) -> bool {
        exists|s: Side, p: u64, i: int| #[trigger] self.indexed_at(s, p, i, id)
    }

    /// Ids that can be found in the book.
    pub open spec fn indexed_ids(self) -> Set<u64> {
        Set::new(|id: u64| self.has_indexed(id))
    }

    /// Total resting quantity at a price on a side.
    pub open spec fn level_qty(self, s: Side, p: u64) -> nat {
        if self.side(s).contains_key(p) {
            queue_qty(self.side(s)[p])
        } else {
            0
        }
    }

    /// Every level is non-empty, every resting quantity positive, and at most
    /// one resting order is indexed under any id.
    pub open spec fn wf(self) -> bool {
        &&& self.bids.dom().finite()
        &&& self.asks.dom().finite()
        &&& forall|s: Side, p: u64|
            #![trigger self.side(s).contains_key(p)]
            self.side(s).contains_key(p) ==> self.side(s)[p].len() > 0
        &&& forall|s: Side, p: u64, i: int|
            #![trigger self.side(s)[p][i]]
            self.side(s).contains_key(p) && 0 <= i < self.side(s)[p].len() ==> self.side(
                s,
            )[p][i].qty > 0
        &&& forall|s1: Side, p1: u64, i1: int, s2: Side, p2: u64, i2: int, id: u64|
            #![trigger self.indexed_at(s1, p1, i1, id), self.indexed_at(s2, p2, i2, id)]
            self.indexed_at(s1, p1, i1, id) && self.indexed_at(s2, p2, i2, id) ==> s1 == s2 && p1
                == p2 && i1 == i2
    }

    /// Removes the mark of every order with id `id`.
    pub open spec fn clear_mark(self, id: u64) -> BookView {
        BookView { bids: clear_mark_side(self.bids, id), asks: clear_mark_side(self.asks, id) }
    }

    /// Replaces the queue at `p` on side `s`, dropping the level when the
    /// queue is empty.
    pub open spec fn set_queue(self, s: Side, p: u64, q: Seq<Resting>) -> BookView {
        if q.len() == 0 {
            self.with_side(s, self.side(s).remove(p))
        } else {
            self.with_side(s, self.side(s).insert(p, q))
        }
    }

    /// Trades `f` lots against the oldest order at price `p` on side `s`.
    /// A maker that is used up leaves the book, and its id loses its index
    /// entry.
    pub open spec fn take_head(self, s: Side, p: u64, f: u64) -> BookView {
        let q = self.side(s)[p];
        let m = q[0];
        if f == m.qty {
            self.set_queue(s, p, q.drop_first()).clear_mark(m.id)
        } else {
            self.set_queue(
                s,
                p,
                q.update(0, Resting { id: m.id, qty: (m.qty - f) as u64, indexed: m.indexed }),
            )
        }
    }

    /// Appends a new indexed order at the back of the queue at `p` on side
    /// `s`; any earlier order with the same id loses its index entry.
    pub open spec fn place(self, s: Side, p: u64, id: u64, qty: u64) -> BookView {
        let u = self.clear_mark(id);
        let r = Resting { id, qty, indexed: true };
        let m = u.side(s);
        u.with_side(
            s,
            m.insert(
                p,
                if m.contains_key(p) {
                    m[p].push(r)
                } else {
                    seq![r]
                },
            ),
        )
    }

    /// Removes the order at position `i` of the queue at `p` on side `s`.
    pub open spec fn remove_at(self, s: Side, p: u64, i: int) -> BookView {
        self.set_queue(s, p, self.side(s)[p].remove(i))
    }
}

/// Whether the incoming order can trade once more against `v`.
pub open spec fn can_trade(v: BookView, taker: Order, remaining: nat) -> bool {
    let ms = opposite(taker.side);
    match v.best(ms) {
        None => false,
        Some(p) => {
            &&& remaining > 0
            &&& crosses(taker, p)
            &&& v.side(ms).contains_key(p)
            &&& v.side(ms)[p].len() > 0
            &&& v.side(ms)[p][0].qty > 0
        },
    }
}

/// The fill that the next trade of `taker` against `v` produces.
pub open spec fn next_fill(v: BookView, taker: Order, remaining: nat) -> Fill {
    let ms = opposite(taker.side);
    let p = v.best(ms)->0;
    let m = v.side(ms)[p][0];
    let f = if remaining < m.qty {
        remaining as u64
    } else {
        m.qty
    };
    Fill { maker_id: m.id, taker_id: taker.id, price: p, qty: f, side: taker.side }
}

/// Matches `remaining` lots of `taker` against the opposite side of `v`,
/// best price first and oldest order first within a price, one maker at a
/// time, for as long as the taker crosses the best opposite price.
/// Returns the book afterwards, the quantity left and the fills in order.
#[verifier::opaque]
pub open spec fn sweep(v: BookView, taker: Order, remaining: nat) -> (BookView, nat, Seq<Fill>)
    decreases remaining,
{
    if can_trade(v, taker, remaining) {
        let f = next_fill(v, taker, remaining);
        let v1 = v.take_head(opposite(taker.side), f.price, f.qty);
        let r = sweep(v1, taker, (remaining - f.qty) as nat);
        (r.0, r.1, seq![f] + r.2)
    } else {
        (v, remaining, Seq::empty())
    }
}

/// Whether part of `o` is left to rest on the book after it is submitted to `v`.
pub open spec fn rests(v: BookView, o: Order) -> bool {
    sweep(v, o, o.qty as nat).1 > 0 && o.order_type == OrderType::Limit
}

/// The effect of submitting `o` to a book `v`: the book afterwards and the
/// fills, in order. A limit order's remainder rests at its price; a market
/// order's remainder is dropped.
pub open spec fn submit(v: BookView, o: Order) -> (BookView, Seq<Fill>) {
    let r = sweep(v, o, o.qty as nat);
    if rests(v, o) {
        (r.0.place(o.side, o.price, o.id, r.1 as u64), r.2)
    } else {
        (r.0, r.2)
    }
}

/// The effect of cancelling `id`: the indexed order with that id leaves the
/// book; the flag tells whether there was one.
pub open spec fn cancel_spec(v: BookView, id: u64) -> (BookView, bool) {
    if v.has_indexed(id) {
        let (s, p, i) = choose|s: Side, p: u64, i: int| v.indexed_at(s, p, i, id);
        (v.remove_at(s, p, i), true)
    } else {
        (v, false)
    }
}

/// The spread: best ask minus best bid, when both exist and do not cross.
pub open spec fn spread_spec(v: BookView) -> Option<u64> {
    match (v.best(Side::Sell), v.best(Side::Buy)) {
        (Some(a), Some(b)) => if a >= b {
            Some((a - b) as u64)
        } else {
            None
        },
        _ => None,
    }
}

/// A witness for `lowest`.
pub proof fn lemma_lowest_is(keys: Set<u64>, k: u64)
    requires
        keys.contains(k),
        forall|q: u64| keys.contains(q) ==> k <= q,
    ensures
        lowest(keys) == Some(k),
{
    let c = choose|p: u64| keys.contains(p) && forall|q: u64| keys.contains(q) ==> p <= q;
    assert(keys.contains(c) && forall|q: u64| keys.contains(q) ==> c <= q);
    assert(c <= k && k <= c);
}

/// A witness for `highest`.
pub proof fn lemma_highest_is(keys: Set<u64>, k: u64)
    requires
        keys.contains(k),
        forall|q: u64| keys.contains(q) ==> q <= k,
    ensures
        highest(keys) == Some(k),
{
    let c = choose|p: u64| keys.contains(p) && forall|q: u64| keys.contains(q) ==> q <= p;
    assert(keys.contains(c) && forall|q: u64| keys.contains(q) ==> q <= c);
    assert(c <= k && k <= c);
}


/// One step of `sweep`: a trade against the best opposite order, then the
/// rest of the sweep.
pub proof fn lemma_sweep_step(v: BookView, taker: Order, remaining: nat)
    requires
        can_trade(v, taker, remaining),
    ensures
        ({
            let f = next_fill(v, taker, remaining);
            let r = sweep(
                v.take_head(opposite(taker.side), f.price, f.qty),
                taker,
                (remaining - f.qty) as nat,
            );
            sweep(v, taker, remaining) == (r.0, r.1, seq![f] + r.2)
        }),
{
    reveal(sweep);
}

/// `sweep` stops when no trade is possible.
pub proof fn lemma_sweep_stop(v: BookView, taker: Order, remaining: nat)
    requires
        !can_trade(v, taker, remaining),
    ensures
        sweep(v, taker, remaining) == (v, remaining, Seq::<Fill>::empty()),
{
    reveal(sweep);
}

} // verus!
